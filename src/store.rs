//! The tools table and the repository operations on it: filtered and paged
//! listing, lookup by id, creation, partial update and deletion.

use vstd::prelude::*;
use crate::errors::{ApiError, ValidationFault};
use crate::model::{Category, Department, Tool, ToolStatus, all_valid, copy_opt, MAX_MONTHLY_COST};
use crate::text::{contains_text, find_text, lower_of, to_lower};

verus! {

/// Default page size of a listing.
pub const DEFAULT_LIMIT: i64 = 50;

/// List parameters as they arrive with a request.
#[derive(Debug)]
pub struct ToolsQuery {
    pub status: Option<String>,
    pub category_id: Option<i32>,
    pub vendor: Option<String>,
    pub search: Option<String>,
    pub limit: Option<i64>,
    pub skip: Option<i64>,
}

/// Checked list parameters; all present filters must hold of a listed tool.
#[derive(Debug)]
pub struct ToolFilter {
    pub status: Option<ToolStatus>,
    pub category_id: Option<i32>,
    /// Case-insensitive substring of the vendor.
    pub vendor: Option<String>,
    /// Case-insensitive substring of the name.
    pub search: Option<String>,
    pub limit: u64,
    pub skip: u64,
}

impl ToolsQuery {
    /// Checks the parameters: a known status, a limit and a skip that are not
    /// negative; the limit defaults to 50 and the skip to 0.
    pub fn to_filter(&self) -> (r: Result<ToolFilter, ApiError>)
        ensures
            r matches Ok(f) ==> {
                &&& (self.status is None <==> f.status is None)
                &&& (self.status matches Some(s) ==> f.status->0.spec_name() == s@)
                &&& f.category_id == self.category_id
                &&& f.vendor == self.vendor
                &&& f.search == self.search
                &&& f.limit == (match self.limit { Some(l) => l as int, None => DEFAULT_LIMIT as int })
                &&& f.skip == (match self.skip { Some(k) => k as int, None => 0 })
            },
            r is Ok <==> {
                &&& (self.status matches Some(s) ==> exists|st: ToolStatus| st.spec_name() == s@)
                &&& (self.limit matches Some(l) ==> l >= 0)
                &&& (self.skip matches Some(k) ==> k >= 0)
            },
            r matches Err(e) ==> e is Validation,
    {
        let status = match &self.status {
            Some(s) => match ToolStatus::parse(s.as_str()) {
                Some(st) => Some(st),
                None => {
                    return Err(ApiError::Validation(ValidationFault::UnknownStatus));
                },
            },
            None => None,
        };
        let limit = match self.limit {
            Some(l) => l,
            None => DEFAULT_LIMIT,
        };
        if limit < 0 {
            return Err(ApiError::Validation(ValidationFault::NegativeLimit));
        }
        let skip = match self.skip {
            Some(k) => k,
            None => 0,
        };
        if skip < 0 {
            return Err(ApiError::Validation(ValidationFault::NegativeSkip));
        }
        Ok(ToolFilter {
            status,
            category_id: self.category_id,
            vendor: copy_opt(&self.vendor),
            search: copy_opt(&self.search),
            limit: limit as u64,
            skip: skip as u64,
        })
    }
}

/// `t` satisfies every filter that is present.
pub open spec fn matches(t: Tool, f: ToolFilter) -> bool {
    &&& (f.status matches Some(s) ==> t.status == s)
    &&& (f.category_id matches Some(c) ==> t.category_id == c)
    &&& (f.vendor matches Some(v) ==> t.vendor matches Some(tv) && contains_text(
        lower_of(tv@),
        lower_of(v@),
    ))
    &&& (f.search matches Some(q) ==> contains_text(lower_of(t.name@), lower_of(q@)))
}

/// The tools of `tools` that satisfy `f`, in their order.
pub open spec fn filtered(tools: Seq<Tool>, f: ToolFilter) -> Seq<Tool>
    decreases tools.len(),
{
    if tools.len() == 0 {
        Seq::empty()
    } else {
        let rest = filtered(tools.drop_last(), f);
        if matches(tools.last(), f) {
            rest.push(tools.last())
        } else {
            rest
        }
    }
}

/// The page that skips `skip` rows of `rows` and keeps at most `limit`.
pub open spec fn page(rows: Seq<Tool>, skip: int, limit: int) -> Seq<Tool> {
    let start = if skip < rows.len() { skip } else { rows.len() as int };
    let end = if limit < rows.len() - start { start + limit } else { rows.len() as int };
    rows.subrange(start, end)
}

/// One page of a listing: `total` counts the tools that satisfy the filters
/// before paging, `filtered` the tools on the page.
#[derive(Debug)]
pub struct ToolsListResponse {
    pub data: Vec<Tool>,
    pub total: usize,
    pub filtered: usize,
}

/// Whether `t` satisfies `f`, given the lowercase forms of the text filters.
pub fn matches_lowered(
    t: &Tool,
    f: &ToolFilter,
    vendor_lower: &Option<String>,
    search_lower: &Option<String>,
) -> (r: bool)
    requires
        f.vendor is None <==> vendor_lower is None,
        f.search is None <==> search_lower is None,
        vendor_lower matches Some(v) ==> v@ == lower_of(f.vendor->0@),
        search_lower matches Some(q) ==> q@ == lower_of(f.search->0@),
    ensures
        r == matches(*t, *f),
{
    match f.status {
        Some(s) => {
            if t.status != s {
                return false;
            }
        },
        None => {},
    }
    match f.category_id {
        Some(c) => {
            if t.category_id != c {
                return false;
            }
        },
        None => {},
    }
    match vendor_lower {
        Some(v) => match &t.vendor {
            Some(tv) => {
                let tl = to_lower(tv);
                if !find_text(tl.as_str(), v.as_str()) {
                    return false;
                }
            },
            None => {
                return false;
            },
        },
        None => {},
    }
    match search_lower {
        Some(q) => {
            let nl = to_lower(&t.name);
            if !find_text(nl.as_str(), q.as_str()) {
                return false;
            }
        },
        None => {},
    }
    true
}

/// Lowercase form of an optional text filter.
fn lower_opt(s: &Option<String>) -> (r: Option<String>)
    ensures
        s is None <==> r is None,
        r matches Some(v) ==> v@ == lower_of(s->0@),
{
    match s {
        Some(v) => Some(to_lower(v)),
        None => None,
    }
}

/// Fields of a tool to be created.
#[derive(Debug)]
pub struct CreateToolRequest {
    pub name: String,
    pub description: String,
    pub vendor: String,
    pub website_url: Option<String>,
    pub category_id: i32,
    /// Monthly cost in cents.
    pub monthly_cost: i64,
    /// Defaults to 0.
    pub active_users_count: Option<i32>,
    /// Defaults to Engineering.
    pub owner_department: Option<String>,
    /// Defaults to active.
    pub status: Option<String>,
}

/// Fields to change on a tool; absent fields keep their value.
#[derive(Debug)]
pub struct UpdateToolRequest {
    pub name: Option<String>,
    pub description: Option<String>,
    pub vendor: Option<String>,
    pub website_url: Option<String>,
    pub category_id: Option<i32>,
    /// Monthly cost in cents.
    pub monthly_cost: Option<i64>,
    pub active_users_count: Option<i32>,
    pub owner_department: Option<String>,
    pub status: Option<String>,
}

/// What a successful update did.
#[derive(Clone, Copy, Debug, PartialEq, Eq, Structural)]
pub enum UpdateOutcome {
    Updated,
    NoFieldsToUpdate,
}

impl UpdateOutcome {
    /// Message of the reply to a successful update.
    pub fn message(&self) -> (r: &'static str)
        ensures
            *self == UpdateOutcome::Updated ==> r@ == "Tool updated successfully"@,
            *self == UpdateOutcome::NoFieldsToUpdate ==> r@ == "No fields to update"@,
    {
        match self {
            UpdateOutcome::Updated => "Tool updated successfully",
            UpdateOutcome::NoFieldsToUpdate => "No fields to update",
        }
    }
}

pub open spec fn is_department_name(s: Seq<char>) -> bool {
    exists|d: Department| d.spec_name() == s
}

pub open spec fn is_status_name(s: Seq<char>) -> bool {
    exists|st: ToolStatus| st.spec_name() == s
}

/// The first rule that the fields break, in the order name, cost, users,
/// department, status; absent fields break none.
pub open spec fn field_fault(
    name: Option<Seq<char>>,
    cost: Option<i64>,
    users: Option<i32>,
    department: Option<Seq<char>>,
    status: Option<Seq<char>>,
) -> Option<ValidationFault> {
    if name matches Some(n) && !(2 <= n.len() <= 100) {
        Some(ValidationFault::NameLength)
    } else if cost matches Some(c) && c < 0 {
        Some(ValidationFault::NegativeCost)
    } else if cost matches Some(c) && c > MAX_MONTHLY_COST {
        Some(ValidationFault::CostTooLarge)
    } else if users matches Some(u) && u < 0 {
        Some(ValidationFault::NegativeUsers)
    } else if department matches Some(d) && !is_department_name(d) {
        Some(ValidationFault::UnknownDepartment)
    } else if status matches Some(st) && !is_status_name(st) {
        Some(ValidationFault::UnknownStatus)
    } else {
        None
    }
}

pub open spec fn opt_view(s: Option<String>) -> Option<Seq<char>> {
    match s {
        Some(v) => Some(v@),
        None => None,
    }
}

pub open spec fn create_fault(req: CreateToolRequest) -> Option<ValidationFault> {
    field_fault(
        Some(req.name@),
        Some(req.monthly_cost),
        req.active_users_count,
        opt_view(req.owner_department),
        opt_view(req.status),
    )
}

pub open spec fn update_fault(req: UpdateToolRequest) -> Option<ValidationFault> {
    field_fault(
        opt_view(req.name),
        req.monthly_cost,
        req.active_users_count,
        opt_view(req.owner_department),
        opt_view(req.status),
    )
}

/// The request names no field at all.
pub open spec fn no_fields(req: UpdateToolRequest) -> bool {
    &&& req.name is None
    &&& req.description is None
    &&& req.vendor is None
    &&& req.website_url is None
    &&& req.category_id is None
    &&& req.monthly_cost is None
    &&& req.active_users_count is None
    &&& req.owner_department is None
    &&& req.status is None
}

/// Checked field values: the parsed department and status, if given.
struct CheckedFields {
    department: Option<Department>,
    status: Option<ToolStatus>,
}

fn check_fields(
    name: &Option<String>,
    cost: Option<i64>,
    users: Option<i32>,
    department: &Option<String>,
    status: &Option<String>,
) -> (r: Result<CheckedFields, ValidationFault>)
    ensures
        r matches Err(v) ==> field_fault(
            opt_view(*name),
            cost,
            users,
            opt_view(*department),
            opt_view(*status),
        ) == Some(v),
        r is Ok ==> field_fault(
            opt_view(*name),
            cost,
            users,
            opt_view(*department),
            opt_view(*status),
        ) is None,
        r matches Ok(c) ==> {
            &&& (department is None <==> c.department is None)
            &&& (department matches Some(d) ==> c.department->0.spec_name() == d@)
            &&& (status is None <==> c.status is None)
            &&& (status matches Some(s) ==> c.status->0.spec_name() == s@)
        },
{
    match name {
        Some(n) => {
            let len = n.as_str().unicode_len();
            if len < 2 || len > 100 {
                return Err(ValidationFault::NameLength);
            }
        },
        None => {},
    }
    match cost {
        Some(c) => {
            if c < 0 {
                return Err(ValidationFault::NegativeCost);
            }
            if c as u64 > MAX_MONTHLY_COST {
                return Err(ValidationFault::CostTooLarge);
            }
        },
        None => {},
    }
    match users {
        Some(u) => {
            if u < 0 {
                return Err(ValidationFault::NegativeUsers);
            }
        },
        None => {},
    }
    let dept = match department {
        Some(d) => match Department::parse(d.as_str()) {
            Some(v) => Some(v),
            None => {
                return Err(ValidationFault::UnknownDepartment);
            },
        },
        None => None,
    };
    let st = match status {
        Some(s) => match ToolStatus::parse(s.as_str()) {
            Some(v) => Some(v),
            None => {
                return Err(ValidationFault::UnknownStatus);
            },
        },
        None => None,
    };
    Ok(CheckedFields { department: dept, status: st })
}

/// Timestamp given to a write at wall-clock time `now`: never earlier than
/// `now`, and always later than every earlier one.
pub open spec fn stamp(clock: int, now: int) -> int {
    if now > clock {
        now
    } else {
        clock + 1
    }
}

/// Copy of the category named for `id`, if any.
fn find_category(categories: &Vec<Category>, id: i32) -> (r: Option<String>)
    ensures
        r == category_name(categories@, id),
{
    let n = categories.len();
    let mut i: usize = 0;
    assert(categories@.subrange(0, n as int) =~= categories@);
    while i < n
        invariant
            n == categories@.len(),
            i <= n,
            category_name(categories@, id) == category_name(categories@.subrange(i as int, n as int), id),
        decreases n - i,
    {
        let ghost rest = categories@.subrange(i as int, n as int);
        assert(rest.drop_first() =~= categories@.subrange(i + 1, n as int));
        assert(rest[0] == categories@[i as int]);
        if categories[i].id == id {
            return Some(categories[i].name.clone());
        }
        i = i + 1;
    }
    None
}

/// The id a create hands out (the table's next id) is positive and larger
/// than every id in the table, so ids stay unique across repeated creates.
pub proof fn lemma_create_id_fresh(table: &ToolTable)
    requires
        table.wf(),
    ensures
        table.next_id() >= 1,
        forall|i: int| 0 <= i < table.rows().len() ==> #[trigger] table.rows()[i].id < table.next_id(),
        forall|i: int, j: int|
            0 <= i < table.rows().len() && 0 <= j < table.rows().len() && i != j ==> #[trigger] table.rows()[i].id
                != #[trigger] table.rows()[j].id,
{
    assert forall|i: int| 0 <= i < table.rows().len() implies #[trigger] table.rows()[i].id < table.next_id() by {
        assert(row_ok(table.tools@[i], table.next_id as int, table.clock as int));
    }
    assert forall|i: int, j: int|
        0 <= i < table.rows().len() && 0 <= j < table.rows().len() && i != j implies #[trigger] table.rows()[i].id
            != #[trigger] table.rows()[j].id by {
        if i < j {
            assert(table.tools@[i].id < table.tools@[j].id);
        } else {
            assert(table.tools@[j].id < table.tools@[i].id);
        }
    }
}

/// A write's timestamp is later than every timestamp handed out before it.
pub proof fn lemma_stamp_increases(clock: int, now: int, earlier: int)
    requires
        earlier <= clock,
    ensures
        stamp(clock, now) > earlier,
        stamp(clock, now) >= now,
{
}

/// Listed tools satisfy every present filter at once, and every tool that
/// satisfies them all is listed, in the table's order.
pub proof fn lemma_filter_conjunctive(tools: Seq<Tool>, f: ToolFilter)
    ensures
        forall|i: int| 0 <= i < filtered(tools, f).len() ==> {
            let t = #[trigger] filtered(tools, f)[i];
            &&& (f.status matches Some(s) ==> t.status == s)
            &&& (f.category_id matches Some(c) ==> t.category_id == c)
            &&& matches(t, f)
        },
        forall|j: int| 0 <= j < tools.len() && matches(#[trigger] tools[j], f) ==> exists|i: int|
            0 <= i < filtered(tools, f).len() && filtered(tools, f)[i] == tools[j],
        filtered(tools, f).len() <= tools.len(),
    decreases tools.len(),
{
    if tools.len() > 0 {
        let init = tools.drop_last();
        lemma_filter_conjunctive(init, f);
        let rest = filtered(init, f);
        assert forall|j: int| 0 <= j < tools.len() && matches(#[trigger] tools[j], f) implies exists|i: int|
            0 <= i < filtered(tools, f).len() && filtered(tools, f)[i] == tools[j] by {
            if j < tools.len() - 1 {
                assert(init[j] == tools[j]);
                let i0 = choose|i: int| 0 <= i < rest.len() && rest[i] == init[j];
                assert(filtered(tools, f)[i0] == tools[j]);
            } else {
                assert(filtered(tools, f)[rest.len() as int] == tools[j]);
            }
        }
    }
}

/// Filtering keeps ids increasing and never goes past the last id.
pub proof fn lemma_filtered_increasing(tools: Seq<Tool>, f: ToolFilter)
    requires
        ids_increasing(tools),
    ensures
        ids_increasing(filtered(tools, f)),
        filtered(tools, f).len() > 0 ==> tools.len() > 0 && filtered(tools, f).last().id <= tools.last().id,
    decreases tools.len(),
{
    if tools.len() > 0 {
        let init = tools.drop_last();
        assert(ids_increasing(init)) by {
            assert forall|i: int, j: int| 0 <= i < j < init.len() implies #[trigger] init[i].id < #[trigger] init[j].id by {
                assert(tools[i].id < tools[j].id);
            }
        }
        lemma_filtered_increasing(init, f);
        let rest = filtered(init, f);
        if matches(tools.last(), f) {
            if rest.len() > 0 {
                assert(init.len() > 0);
                assert(tools[init.len() - 1].id < tools[tools.len() - 1].id);
            }
            assert forall|i: int, j: int| 0 <= i < j < filtered(tools, f).len() implies #[trigger] filtered(tools, f)[i].id
                < #[trigger] filtered(tools, f)[j].id by {
                if j < rest.len() {
                    assert(rest[i].id < rest[j].id);
                } else {
                    if i < rest.len() - 1 {
                        assert(rest[i].id < rest[rest.len() - 1].id);
                    }
                }
            }
        } else if rest.len() > 0 {
            assert(tools[init.len() - 1].id < tools[tools.len() - 1].id);
        }
    }
}

/// The filtered total depends on the filters alone, not on paging.
pub proof fn lemma_total_ignores_paging(tools: Seq<Tool>, f: ToolFilter, g: ToolFilter)
    requires
        f.status == g.status,
        f.category_id == g.category_id,
        f.vendor == g.vendor,
        f.search == g.search,
    ensures
        filtered(tools, f) == filtered(tools, g),
    decreases tools.len(),
{
    if tools.len() > 0 {
        lemma_total_ignores_paging(tools.drop_last(), f, g);
    }
}

/// A page of `rows` skipping `k` and keeping at most `m` has
/// `min(m, max(0, N - k))` rows: the rows `k`, `k + 1`, ... in order.
pub proof fn lemma_page_bounds(rows: Seq<Tool>, k: int, m: int)
    requires
        k >= 0,
        m >= 0,
    ensures
        page(rows, k, m).len() == (if m < rows.len() - k { m } else if rows.len() - k > 0 {
            rows.len() - k
        } else {
            0
        }),
        forall|i: int| 0 <= i < page(rows, k, m).len() ==> #[trigger] page(rows, k, m)[i] == rows[k + i],
{
}

/// Once a tool is deleted no row has its id, so deleting it again is NotFound.
pub proof fn lemma_deleted_id_gone(before: &ToolTable, after: &ToolTable, id: i32, i: int)
    requires
        before.wf(),
        0 <= i < before.rows().len(),
        before.rows()[i].id == id,
        after.rows() == before.rows().remove(i),
    ensures
        !after.has_id(id),
{
    lemma_create_id_fresh(before);
    assert forall|a: int| 0 <= a < after.rows().len() implies #[trigger] after.rows()[a].id != id by {
        let a0 = if a < i { a } else { a + 1 };
        assert(after.rows()[a] == before.rows()[a0]);
        assert(before.rows()[a0].id != before.rows()[i].id);
    }
}

/// The tools table; rows are kept in increasing order of id.
pub struct ToolTable {
    tools: Vec<Tool>,
    categories: Vec<Category>,
    next_id: i32,
    clock: i64,
}

/// Ids strictly increase along `tools`.
pub open spec fn ids_increasing(tools: Seq<Tool>) -> bool {
    forall|i: int, j: int| 0 <= i < j < tools.len() ==> #[trigger] tools[i].id < #[trigger] tools[j].id
}

/// A row of a table whose next id is `next` and whose latest timestamp is `clock`.
pub open spec fn row_ok(t: Tool, next: int, clock: int) -> bool {
    &&& 1 <= t.id < next
    &&& t.updated_at <= clock
    &&& t.created_at <= clock
}

/// The rows of such a table: ids increasing, costs in range, each row fits.
pub open spec fn rows_ok(rows: Seq<Tool>, next: int, clock: int) -> bool {
    &&& ids_increasing(rows)
    &&& all_valid(rows)
    &&& forall|i: int| 0 <= i < rows.len() ==> row_ok(#[trigger] rows[i], next, clock)
}

proof fn lemma_rows_set(rows: Seq<Tool>, i: int, t: Tool, next: int, clock: int, clock2: int)
    requires
        rows_ok(rows, next, clock),
        0 <= i < rows.len(),
        t.id == rows[i].id,
        t.valid(),
        t.updated_at <= clock2,
        t.created_at <= clock2,
        clock <= clock2,
    ensures
        rows_ok(rows.update(i, t), next, clock2),
{
    let r2 = rows.update(i, t);
    assert forall|a: int, b: int| 0 <= a < b < r2.len() implies #[trigger] r2[a].id < #[trigger] r2[b].id by {
        assert(rows[a].id < rows[b].id);
    }
    assert forall|a: int| 0 <= a < r2.len() implies #[trigger] r2[a].valid() by {
        assert(rows[a].valid());
    }
    assert forall|a: int| 0 <= a < r2.len() implies row_ok(#[trigger] r2[a], next, clock2) by {
        assert(row_ok(rows[a], next, clock));
    }
}

proof fn lemma_rows_remove(rows: Seq<Tool>, i: int, next: int, clock: int)
    requires
        rows_ok(rows, next, clock),
        0 <= i < rows.len(),
    ensures
        rows_ok(rows.remove(i), next, clock),
        forall|a: int| 0 <= a < rows.remove(i).len() ==> #[trigger] rows.remove(i)[a].id != rows[i].id,
{
    let r2 = rows.remove(i);
    assert forall|a: int, b: int| 0 <= a < b < r2.len() implies #[trigger] r2[a].id < #[trigger] r2[b].id by {
        let a0 = if a < i { a } else { a + 1 };
        let b0 = if b < i { b } else { b + 1 };
        assert(r2[a] == rows[a0]);
        assert(r2[b] == rows[b0]);
        assert(rows[a0].id < rows[b0].id);
    }
    assert forall|a: int| 0 <= a < r2.len() implies #[trigger] r2[a].valid() && row_ok(r2[a], next, clock) by {
        let a0 = if a < i { a } else { a + 1 };
        assert(r2[a] == rows[a0]);
        assert(rows[a0].valid());
        assert(row_ok(rows[a0], next, clock));
    }
    assert forall|a: int| 0 <= a < r2.len() implies #[trigger] r2[a].id != rows[i].id by {
        let a0 = if a < i { a } else { a + 1 };
        assert(r2[a] == rows[a0]);
        if a0 < i {
            assert(rows[a0].id < rows[i].id);
        } else {
            assert(rows[i].id < rows[a0].id);
        }
    }
}

proof fn lemma_rows_push(rows: Seq<Tool>, t: Tool, next: int, clock: int, clock2: int)
    requires
        rows_ok(rows, next, clock),
        t.id == next,
        1 <= next,
        t.valid(),
        t.updated_at <= clock2,
        t.created_at <= clock2,
        clock <= clock2,
    ensures
        rows_ok(rows.push(t), next + 1, clock2),
{
    let r2 = rows.push(t);
    assert forall|a: int, b: int| 0 <= a < b < r2.len() implies #[trigger] r2[a].id < #[trigger] r2[b].id by {
        assert(row_ok(rows[a], next, clock));
        if b < rows.len() {
            assert(rows[a].id < rows[b].id);
        }
    }
    assert forall|a: int| 0 <= a < r2.len() implies #[trigger] r2[a].valid() by {
        if a < rows.len() {
            assert(rows[a].valid());
        }
    }
    assert forall|a: int| 0 <= a < r2.len() implies row_ok(#[trigger] r2[a], next + 1, clock2) by {
        if a < rows.len() {
            assert(row_ok(rows[a], next, clock));
        }
    }
}

/// Name of the first category with this id, if any.
pub open spec fn category_name(categories: Seq<Category>, id: i32) -> Option<String>
    decreases categories.len(),
{
    if categories.len() == 0 {
        None
    } else if categories[0].id == id {
        Some(categories[0].name)
    } else {
        category_name(categories.drop_first(), id)
    }
}

impl ToolTable {
    /// The rows, in increasing order of id.
    pub closed spec fn rows(&self) -> Seq<Tool> {
        self.tools@
    }

    pub closed spec fn categories(&self) -> Seq<Category> {
        self.categories@
    }

    /// Id the next created tool receives.
    pub closed spec fn next_id(&self) -> int {
        self.next_id as int
    }

    /// Latest timestamp handed out.
    pub closed spec fn clock(&self) -> int {
        self.clock as int
    }

    pub closed spec fn wf(&self) -> bool {
        &&& 1 <= self.next_id
        &&& rows_ok(self.tools@, self.next_id as int, self.clock as int)
    }

    /// An empty table over these categories.
    pub fn new(categories: Vec<Category>) -> (r: ToolTable)
        ensures
            r.wf(),
            r.rows() == Seq::<Tool>::empty(),
            r.categories() == categories@,
    {
        ToolTable { tools: Vec::new(), categories, next_id: 1, clock: 0 }
    }

    /// A table holding `tools`, provided their ids are positive, below
    /// `i32::MAX` and increasing, and their costs fit the storage column.
    pub fn from_rows(tools: Vec<Tool>, categories: Vec<Category>) -> (r: Option<ToolTable>)
        ensures
            r is Some <==> {
                &&& ids_increasing(tools@)
                &&& all_valid(tools@)
                &&& forall|i: int| 0 <= i < tools@.len() ==> 1 <= #[trigger] tools@[i].id < i32::MAX
            },
            r matches Some(t) ==> t.wf() && t.rows() == tools@ && t.categories() == categories@,
    {
        let n = tools.len();
        let mut clock: i64 = 0;
        let mut i: usize = 0;
        while i < n
            invariant
                n == tools@.len(),
                i <= n,
                ids_increasing(tools@.subrange(0, i as int)),
                all_valid(tools@.subrange(0, i as int)),
                forall|j: int| 0 <= j < i ==> 1 <= #[trigger] tools@[j].id < i32::MAX,
                forall|j: int|
                    0 <= j < i ==> #[trigger] tools@[j].updated_at <= clock && tools@[j].created_at <= clock,
            decreases n - i,
        {
            let t = &tools[i];
            if t.id < 1 || t.id == i32::MAX {
                assert(!(1 <= tools@[i as int].id < i32::MAX));
                return None;
            }
            if t.monthly_cost > MAX_MONTHLY_COST {
                assert(!tools@[i as int].valid());
                return None;
            }
            if i > 0 && tools[i - 1].id >= t.id {
                assert(!(tools@[i - 1].id < tools@[i as int].id));
                return None;
            }
            if t.updated_at > clock {
                clock = t.updated_at;
            }
            if t.created_at > clock {
                clock = t.created_at;
            }
            assert forall|a: int, b: int| 0 <= a < b < i + 1 implies #[trigger] tools@.subrange(
                0,
                i + 1,
            )[a].id < #[trigger] tools@.subrange(0, i + 1)[b].id by {
                if b < i {
                    assert(tools@.subrange(0, i as int)[a] == tools@[a]);
                    assert(tools@.subrange(0, i as int)[b] == tools@[b]);
                } else if a < i - 1 {
                    assert(tools@.subrange(0, i as int)[a] == tools@[a]);
                    assert(tools@.subrange(0, i as int)[i - 1] == tools@[i - 1]);
                }
            }
            assert forall|a: int| 0 <= a < i + 1 implies #[trigger] tools@.subrange(0, i + 1)[a].valid() by {
                if a < i {
                    assert(tools@.subrange(0, i as int)[a] == tools@[a]);
                }
            }
            i = i + 1;
        }
        assert(tools@.subrange(0, n as int) =~= tools@);
        assert(i == n);
        assert(forall|j: int|
            0 <= j < n ==> #[trigger] tools@[j].updated_at <= clock && tools@[j].created_at <= clock);
        let next_id = if n == 0 {
            1
        } else {
            tools[n - 1].id + 1
        };
        proof {
            assert(ids_increasing(tools@));
            assert forall|j: int| 0 <= j < tools@.len() implies row_ok(#[trigger] tools@[j], next_id as int, clock as int) by {
                assert(0 <= j < n);
                assert(1 <= tools@[j].id < i32::MAX);
                assert(tools@[j].updated_at <= clock && tools@[j].created_at <= clock);
                if j < n - 1 {
                    assert(tools@[j].id < tools@[n - 1].id);
                }
                assert(tools@[j].id < next_id);
            }
            assert(rows_ok(tools@, next_id as int, clock as int));
        }
        Some(ToolTable { tools, categories, next_id, clock })
    }

    /// Index of the row with this id, if any.
    fn position_of(&self, id: i32) -> (r: Option<usize>)
        ensures
            r matches Some(i) ==> i < self.tools@.len() && self.tools@[i as int].id == id,
            r is None ==> forall|i: int| 0 <= i < self.tools@.len() ==> #[trigger] self.tools@[i].id != id,
    {
        let n = self.tools.len();
        let mut i: usize = 0;
        while i < n
            invariant
                n == self.tools@.len(),
                i <= n,
                forall|j: int| 0 <= j < i ==> #[trigger] self.tools@[j].id != id,
            decreases n - i,
        {
            if self.tools[i].id == id {
                return Some(i);
            }
            i = i + 1;
        }
        None
    }

    /// Some row has this id.
    pub open spec fn has_id(&self, id: i32) -> bool {
        exists|i: int| 0 <= i < self.rows().len() && #[trigger] self.rows()[i].id == id
    }

    /// The tool with this id, or NotFound.
    pub fn get_tool(&self, id: i32) -> (r: Result<Tool, ApiError>)
        ensures
            r is Ok <==> self.has_id(id),
            r matches Err(e) ==> e == (ApiError::NotFound { id }),
            r matches Ok(t) ==> t.id == id && exists|i: int|
                0 <= i < self.rows().len() && #[trigger] self.rows()[i] == t,
    {
        match self.position_of(id) {
            Some(i) => {
                let t = self.tools[i].copy();
                assert(self.rows()[i as int] == t);
                Ok(t)
            },
            None => Err(ApiError::NotFound { id }),
        }
    }

    /// Create: checks the request, then appends a tool with the next id,
    /// the defaults for absent fields, and one fresh timestamp as both its
    /// creation and update time.
    pub fn create_tool(&mut self, req: &CreateToolRequest, now: i64) -> (r: Result<Tool, ApiError>)
        requires
            old(self).wf(),
        ensures
            final(self).wf(),
            final(self).categories() == old(self).categories(),
            create_fault(*req) matches Some(v) ==> r == Err::<Tool, ApiError>(ApiError::Validation(v)),
            create_fault(*req) is None && old(self).next_id() < i32::MAX && old(self).clock() < i64::MAX
                ==> r is Ok,
            r is Err ==> final(self).rows() == old(self).rows(),
            r matches Err(e) ==> e is Validation || e is QueryFailure,
            r matches Ok(t) ==> {
                &&& final(self).rows() == old(self).rows().push(t)
                &&& final(self).next_id() == t.id + 1
                &&& final(self).clock() == t.updated_at
                &&& t.id == old(self).next_id()
                &&& t.created_at == t.updated_at
                &&& t.updated_at == stamp(old(self).clock(), now as int)
                &&& t.name == req.name
                &&& t.description == Some(req.description)
                &&& t.vendor == Some(req.vendor)
                &&& t.website_url == req.website_url
                &&& t.category_id == req.category_id
                &&& t.monthly_cost == req.monthly_cost
                &&& t.active_users_count == (match req.active_users_count {
                    Some(u) => u as int,
                    None => 0,
                })
                &&& (req.owner_department matches Some(d) ==> t.owner_department.spec_name() == d@)
                &&& (req.owner_department is None ==> t.owner_department == Department::Engineering)
                &&& (req.status matches Some(s) ==> t.status.spec_name() == s@)
                &&& (req.status is None ==> t.status == ToolStatus::Active)
                &&& t.category == category_name(old(self).categories(), req.category_id)
            },
    {
        let name_opt = Some(req.name.clone());
        let checked = match check_fields(
            &name_opt,
            Some(req.monthly_cost),
            req.active_users_count,
            &req.owner_department,
            &req.status,
        ) {
            Ok(c) => c,
            Err(v) => {
                return Err(ApiError::Validation(v));
            },
        };
        if self.next_id == i32::MAX || self.clock == i64::MAX {
            return Err(ApiError::QueryFailure(String::from_str("no identifier or timestamp left")));
        }
        let at = if now > self.clock {
            now
        } else {
            self.clock + 1
        };
        let users: u32 = match req.active_users_count {
            Some(u) => u as u32,
            None => 0,
        };
        let t = Tool {
            id: self.next_id,
            name: req.name.clone(),
            description: Some(req.description.clone()),
            vendor: Some(req.vendor.clone()),
            website_url: copy_opt(&req.website_url),
            category_id: req.category_id,
            monthly_cost: req.monthly_cost as u64,
            active_users_count: users,
            owner_department: match checked.department {
                Some(d) => d,
                None => Department::Engineering,
            },
            status: match checked.status {
                Some(s) => s,
                None => ToolStatus::Active,
            },
            created_at: at,
            updated_at: at,
            category: find_category(&self.categories, req.category_id),
        };
        let result = t.copy();
        proof {
            lemma_rows_push(self.tools@, t, self.next_id as int, self.clock as int, at as int);
        }
        self.tools.push(t);
        self.next_id = self.next_id + 1;
        self.clock = at;
        Ok(result)
    }

    /// Update: NotFound if no tool has the id; otherwise checks the request,
    /// and unless it names no field, sets the given fields and a fresh
    /// update time.
    pub fn update_tool(&mut self, id: i32, req: &UpdateToolRequest, now: i64) -> (r: Result<
        UpdateOutcome,
        ApiError,
    >)
        requires
            old(self).wf(),
        ensures
            final(self).wf(),
            final(self).categories() == old(self).categories(),
            !old(self).has_id(id) ==> r == Err::<UpdateOutcome, ApiError>(ApiError::NotFound { id }),
            old(self).has_id(id) ==> (update_fault(*req) matches Some(v) ==> r == Err::<
                UpdateOutcome,
                ApiError,
            >(ApiError::Validation(v))),
            old(self).has_id(id) && update_fault(*req) is None && no_fields(*req) ==> r == Ok::<
                UpdateOutcome,
                ApiError,
            >(UpdateOutcome::NoFieldsToUpdate),
            old(self).has_id(id) && update_fault(*req) is None && !no_fields(*req) && old(self).clock()
                < i64::MAX ==> r == Ok::<UpdateOutcome, ApiError>(UpdateOutcome::Updated),
            !(r == Ok::<UpdateOutcome, ApiError>(UpdateOutcome::Updated)) ==> final(self).rows() == old(
                self,
            ).rows(),
            r matches Err(e) ==> e is NotFound || e is Validation || e is QueryFailure,
            r == Ok::<UpdateOutcome, ApiError>(UpdateOutcome::Updated) ==> exists|i: int|
                0 <= i < old(self).rows().len() && old(self).rows()[i].id == id && {
                    let before = old(self).rows()[i];
                    let after = #[trigger] final(self).rows()[i];
                    &&& final(self).rows() == old(self).rows().update(i, after)
                    &&& after.id == id
                    &&& after.created_at == before.created_at
                    &&& after.updated_at == stamp(old(self).clock(), now as int)
                    &&& after.updated_at > before.updated_at
                    &&& final(self).clock() == after.updated_at
                    &&& after.name == (match req.name { Some(v) => v, None => before.name })
                    &&& after.description == (match req.description {
                        Some(v) => Some(v),
                        None => before.description,
                    })
                    &&& after.vendor == (match req.vendor { Some(v) => Some(v), None => before.vendor })
                    &&& after.website_url == (match req.website_url {
                        Some(v) => Some(v),
                        None => before.website_url,
                    })
                    &&& after.category_id == (match req.category_id {
                        Some(v) => v,
                        None => before.category_id,
                    })
                    &&& after.category == (match req.category_id {
                        Some(v) => category_name(old(self).categories(), v),
                        None => before.category,
                    })
                    &&& after.monthly_cost == (match req.monthly_cost {
                        Some(v) => v as int,
                        None => before.monthly_cost as int,
                    })
                    &&& after.active_users_count == (match req.active_users_count {
                        Some(v) => v as int,
                        None => before.active_users_count as int,
                    })
                    &&& (req.owner_department matches Some(d) ==> after.owner_department.spec_name() == d@)
                    &&& (req.owner_department is None ==> after.owner_department == before.owner_department)
                    &&& (req.status matches Some(s) ==> after.status.spec_name() == s@)
                    &&& (req.status is None ==> after.status == before.status)
                },
    {
        let i = match self.position_of(id) {
            Some(i) => i,
            None => {
                return Err(ApiError::NotFound { id });
            },
        };
        let checked = match check_fields(
            &req.name,
            req.monthly_cost,
            req.active_users_count,
            &req.owner_department,
            &req.status,
        ) {
            Ok(c) => c,
            Err(v) => {
                return Err(ApiError::Validation(v));
            },
        };
        if req.name.is_none() && req.description.is_none() && req.vendor.is_none()
            && req.website_url.is_none() && req.category_id.is_none() && req.monthly_cost.is_none()
            && req.active_users_count.is_none() && req.owner_department.is_none()
            && req.status.is_none() {
            return Ok(UpdateOutcome::NoFieldsToUpdate);
        }
        if self.clock == i64::MAX {
            return Err(ApiError::QueryFailure(String::from_str("no timestamp left")));
        }
        let at = if now > self.clock {
            now
        } else {
            self.clock + 1
        };
        let old_row = self.tools[i].copy();
        let category = match req.category_id {
            Some(c) => find_category(&self.categories, c),
            None => copy_opt(&old_row.category),
        };
        let new_row = Tool {
            id: old_row.id,
            name: match &req.name {
                Some(v) => v.clone(),
                None => old_row.name,
            },
            description: match &req.description {
                Some(v) => Some(v.clone()),
                None => old_row.description,
            },
            vendor: match &req.vendor {
                Some(v) => Some(v.clone()),
                None => old_row.vendor,
            },
            website_url: match &req.website_url {
                Some(v) => Some(v.clone()),
                None => old_row.website_url,
            },
            category_id: match req.category_id {
                Some(v) => v,
                None => old_row.category_id,
            },
            monthly_cost: match req.monthly_cost {
                Some(v) => v as u64,
                None => old_row.monthly_cost,
            },
            active_users_count: match req.active_users_count {
                Some(v) => v as u32,
                None => old_row.active_users_count,
            },
            owner_department: match checked.department {
                Some(d) => d,
                None => old_row.owner_department,
            },
            status: match checked.status {
                Some(s) => s,
                None => old_row.status,
            },
            created_at: old_row.created_at,
            updated_at: at,
            category,
        };
        let ghost old_rows = self.tools@;
        proof {
            assert(old_rows[i as int] == old_row);
            assert(row_ok(old_rows[i as int], self.next_id as int, self.clock as int));
            assert(old_rows[i as int].valid());
            lemma_rows_set(old_rows, i as int, new_row, self.next_id as int, self.clock as int, at as int);
        }
        self.tools[i] = new_row;
        self.clock = at;
        proof {
            assert(self.tools@ == old_rows.update(i as int, self.tools@[i as int]));
            let before = old_rows[i as int];
            let after = self.tools@[i as int];
            assert(before.id == id);
            assert(before.updated_at < at);
            assert(after.name == (match req.name { Some(v) => v, None => before.name }));
            assert(after.description == (match req.description { Some(v) => Some(v), None => before.description }));
            assert(after.vendor == (match req.vendor { Some(v) => Some(v), None => before.vendor }));
            assert(after.website_url == (match req.website_url { Some(v) => Some(v), None => before.website_url }));
            assert(after.category_id == (match req.category_id { Some(v) => v, None => before.category_id }));
            assert(after.monthly_cost == (match req.monthly_cost { Some(v) => v as int, None => before.monthly_cost as int }));
            assert(after.active_users_count == (match req.active_users_count { Some(v) => v as int, None => before.active_users_count as int }));
            assert(req.owner_department matches Some(d) ==> after.owner_department.spec_name() == d@);
            assert(req.owner_department is None ==> after.owner_department == before.owner_department);
            assert(req.status matches Some(st) ==> after.status.spec_name() == st@);
            assert(after.category == (match req.category_id { Some(v) => category_name(self.categories@, v), None => before.category }));
            assert(self.rows()[i as int] == after);
        }
        Ok(UpdateOutcome::Updated)
    }

    /// Delete: removes the tool with this id, or NotFound if there is none.
    pub fn delete_tool(&mut self, id: i32) -> (r: Result<(), ApiError>)
        requires
            old(self).wf(),
        ensures
            final(self).wf(),
            final(self).categories() == old(self).categories(),
            r is Ok <==> old(self).has_id(id),
            r matches Err(e) ==> e == (ApiError::NotFound { id }),
            r is Err ==> final(self).rows() == old(self).rows(),
            !final(self).has_id(id),
            r is Ok ==> exists|i: int|
                0 <= i < old(self).rows().len() && #[trigger] old(self).rows()[i].id == id
                    && final(self).rows() == old(self).rows().remove(i),
    {
        match self.position_of(id) {
            Some(i) => {
                let ghost old_rows = self.tools@;
                let _removed = self.tools.remove(i);
                proof {
                    lemma_rows_remove(old_rows, i as int, self.next_id as int, self.clock as int);
                    assert(self.tools@ == old_rows.remove(i as int));
                    assert(old_rows[i as int].id == id);
                    assert forall|a: int| 0 <= a < self.tools@.len() implies #[trigger] self.tools@[a].id != id by {
                        assert(old_rows.remove(i as int)[a].id != old_rows[i as int].id);
                    }
                    assert(!self.has_id(id));
                }
                Ok(())
            },
            None => {
                assert(!self.has_id(id));
                Err(ApiError::NotFound { id })
            },
        }
    }

    /// List: the tools that satisfy the filter, in increasing order of id,
    /// paged by `skip` and `limit`; `total` counts them before paging.
    pub fn get_tools(&self, f: &ToolFilter) -> (r: ToolsListResponse)
        requires
            self.wf(),
        ensures
            r.total == filtered(self.rows(), *f).len(),
            r.data@ == page(filtered(self.rows(), *f), f.skip as int, f.limit as int),
            r.filtered == r.data@.len(),
            forall|i: int, j: int| 0 <= i < j < r.data@.len() ==> #[trigger] r.data@[i].id < #[trigger] r.data@[j].id,
    {
        let vendor_lower = lower_opt(&f.vendor);
        let search_lower = lower_opt(&f.search);
        let n = self.tools.len();
        let mut all: Vec<Tool> = Vec::new();
        let mut k: usize = 0;
        while k < n
            invariant
                n == self.tools@.len(),
                k <= n,
                f.vendor is None <==> vendor_lower is None,
                f.search is None <==> search_lower is None,
                vendor_lower matches Some(v) ==> v@ == lower_of(f.vendor->0@),
                search_lower matches Some(q) ==> q@ == lower_of(f.search->0@),
                all@ == filtered(self.tools@.subrange(0, k as int), *f),
            decreases n - k,
        {
            assert(self.tools@.subrange(0, k + 1).drop_last() =~= self.tools@.subrange(0, k as int));
            assert(self.tools@.subrange(0, k + 1).last() == self.tools@[k as int]);
            if matches_lowered(&self.tools[k], f, &vendor_lower, &search_lower) {
                all.push(self.tools[k].copy());
            }
            k = k + 1;
        }
        assert(self.tools@.subrange(0, n as int) =~= self.tools@);
        let total = all.len();
        let start: usize = if f.skip < total as u64 {
            f.skip as usize
        } else {
            total
        };
        let end: usize = if f.limit < (total - start) as u64 {
            start + f.limit as usize
        } else {
            total
        };
        let mut items: Vec<Tool> = Vec::new();
        let mut i: usize = start;
        while i < end
            invariant
                start <= i <= end <= all@.len(),
                items@ == all@.subrange(start as int, i as int),
            decreases end - i,
        {
            items.push(all[i].copy());
            assert(all@.subrange(start as int, i + 1) =~= all@.subrange(start as int, i as int).push(
                all@[i as int],
            ));
            i = i + 1;
        }
        proof {
            lemma_filtered_increasing(self.tools@, *f);
            assert forall|a: int, b: int| 0 <= a < b < items@.len() implies #[trigger] items@[a].id
                < #[trigger] items@[b].id by {
                assert(items@[a] == all@[start + a]);
                assert(items@[b] == all@[start + b]);
            }
        }
        let shown = items.len();
        ToolsListResponse { data: items, total, filtered: shown }
    }
}

} // verus!
