//! Read-only reports over the tool rows (each joined with its category name).
//!
//! Costs are cents, percentages and user averages are tenths; rows with equal
//! sort keys keep the order in which they were found (tools by id).

use vstd::prelude::*;
use crate::errors::{ApiError, ValidationFault};
use crate::model::{Category, Department, Tool, ToolStatus, all_valid, copy_opt, MAX_MONTHLY_COST};
use crate::ordering::{div_round, round_div, order_desc, is_desc_order, before, listed};

verus! {

/// `x` is one of the rows of `s`.
pub open spec fn occurs<A>(s: Seq<A>, x: A) -> bool {
    exists|j: int| 0 <= j < s.len() && #[trigger] s[j] == x
}

/// `r` holds the rows of `s`, each once, in some order.
pub open spec fn rearranges<A>(r: Seq<A>, s: Seq<A>) -> bool {
    &&& r.len() == s.len()
    &&& forall|i: int| 0 <= i < r.len() ==> occurs(s, #[trigger] r[i])
    &&& forall|j: int| 0 <= j < s.len() ==> occurs(r, #[trigger] s[j])
}

/// Applying an order computed by `order_desc` to rows with those keys.
pub proof fn lemma_apply_order<A>(rows: Seq<A>, keys: Seq<u128>, perm: Seq<usize>, out: Seq<A>)
    requires
        is_desc_order(keys, perm),
        rows.len() == keys.len(),
        out.len() == perm.len(),
        forall|i: int| 0 <= i < out.len() ==> #[trigger] out[i] == rows[perm[i] as int],
    ensures
        rearranges(out, rows),
        forall|i: int, j: int|
            0 <= i < j < out.len() ==> keys[#[trigger] perm[i] as int] >= keys[#[trigger] perm[j] as int],
{
    assert forall|i: int| 0 <= i < out.len() implies occurs(rows, #[trigger] out[i]) by {
        assert(rows[perm[i] as int] == out[i]);
    }
    assert forall|j: int| 0 <= j < rows.len() implies occurs(out, #[trigger] rows[j]) by {
        assert(listed(perm, j));
        let i0 = choose|i: int| 0 <= i < perm.len() && perm[i] == j;
        assert(out[i0] == rows[j]);
    }
    assert forall|i: int, j: int| 0 <= i < j < out.len() implies keys[#[trigger] perm[i] as int]
        >= keys[#[trigger] perm[j] as int] by {
        assert(before(keys, perm[i] as int, perm[j] as int));
    }
}

/// Cost per active user in cents; the cost itself when nobody uses the tool.
pub open spec fn efficiency(cost: int, users: int) -> int {
    if users == 0 {
        cost
    } else {
        round_div(cost, users)
    }
}

pub fn efficiency_rating(cost: u64, users: u32) -> (r: u64)
    ensures
        r == efficiency(cost as int, users as int),
{
    if users == 0 {
        cost
    } else {
        let r = div_round(cost as u128, users as u128);
        assert(r <= cost) by (nonlinear_arith)
            requires
                r == (2 * (cost as int) + users) / (2 * (users as int)),
                users >= 1,
        {
            assert((2 * (cost as int) + users) <= 2 * (users as int) * (cost as int) + 2 * (users as int) - 1);
        }
        r as u64
    }
}

/// Sum of the monthly costs of `tools`.
pub open spec fn cost_sum(tools: Seq<Tool>) -> int
    decreases tools.len(),
{
    if tools.len() == 0 {
        0
    } else {
        cost_sum(tools.drop_last()) + tools.last().monthly_cost
    }
}

pub proof fn lemma_cost_sum_bound(tools: Seq<Tool>)
    requires
        all_valid(tools),
    ensures
        0 <= cost_sum(tools) <= tools.len() * MAX_MONTHLY_COST,
    decreases tools.len(),
{
    if tools.len() > 0 {
        assert(tools.last().valid());
        assert(all_valid(tools.drop_last()));
        lemma_cost_sum_bound(tools.drop_last());
    }
}

// ----------------------------------------------------------- expensive tools

/// Default number of tools in the expensive-tools report.
pub const DEFAULT_EXPENSIVE_LIMIT: i32 = 10;

/// Default user threshold of the low-usage report.
pub const DEFAULT_USAGE_THRESHOLD: i32 = 10;

/// Parameters of the expensive-tools report as they arrive with a request.
#[derive(Debug)]
pub struct ExpensiveToolsQuery {
    pub limit: Option<i32>,
}

impl ExpensiveToolsQuery {
    /// The limit, 10 when absent; a negative one is rejected.
    pub fn limit_or_default(&self) -> (r: Result<usize, ApiError>)
        ensures
            r matches Ok(n) ==> n == (match self.limit { Some(l) => l as int, None => 10 }),
            r is Err <==> (self.limit matches Some(l) && l < 0),
            r matches Err(e) ==> e == ApiError::Validation(ValidationFault::NegativeLimit),
    {
        match self.limit {
            Some(l) => {
                if l < 0 {
                    Err(ApiError::Validation(ValidationFault::NegativeLimit))
                } else {
                    Ok(l as usize)
                }
            },
            None => Ok(DEFAULT_EXPENSIVE_LIMIT as usize),
        }
    }
}

/// Parameters of the low-usage report as they arrive with a request.
#[derive(Debug)]
pub struct LowUsageQuery {
    pub threshold: Option<i32>,
}

impl LowUsageQuery {
    /// The threshold, 10 when absent.
    pub fn threshold_or_default(&self) -> (r: i32)
        ensures
            r == (match self.threshold { Some(t) => t, None => 10 }),
    {
        match self.threshold {
            Some(t) => t,
            None => DEFAULT_USAGE_THRESHOLD,
        }
    }
}

/// A tool with its cost per user.
#[derive(Debug)]
pub struct ExpensiveTool {
    pub id: i32,
    pub name: String,
    pub category: Option<String>,
    pub monthly_cost: u64,
    pub active_users_count: u32,
    pub efficiency_rating: u64,
    pub department: Department,
}

impl ExpensiveTool {
    pub fn copy(&self) -> (r: ExpensiveTool)
        ensures
            r == *self,
    {
        ExpensiveTool {
            id: self.id,
            name: self.name.clone(),
            category: copy_opt(&self.category),
            monthly_cost: self.monthly_cost,
            active_users_count: self.active_users_count,
            efficiency_rating: self.efficiency_rating,
            department: self.department,
        }
    }
}

/// The expensive-tools report.
#[derive(Debug)]
pub struct ExpensiveToolsResponse {
    pub tools: Vec<ExpensiveTool>,
}

pub open spec fn expensive_row(t: Tool) -> ExpensiveTool {
    ExpensiveTool {
        id: t.id,
        name: t.name,
        category: t.category,
        monthly_cost: t.monthly_cost,
        active_users_count: t.active_users_count,
        efficiency_rating: efficiency(t.monthly_cost as int, t.active_users_count as int) as u64,
        department: t.owner_department,
    }
}

pub open spec fn expensive_rows(tools: Seq<Tool>) -> Seq<ExpensiveTool> {
    tools.map_values(|t: Tool| expensive_row(t))
}

/// Rows in order of decreasing monthly cost.
pub open spec fn by_cost_desc(rows: Seq<ExpensiveTool>) -> bool {
    forall|i: int, j: int|
        0 <= i < j < rows.len() ==> #[trigger] rows[i].monthly_cost >= #[trigger] rows[j].monthly_cost
}

/// The `limit` most expensive tools, most expensive first.
pub fn get_expensive_tools(tools: &Vec<Tool>, limit: usize) -> (r: ExpensiveToolsResponse)
    ensures
        exists|all: Seq<ExpensiveTool>|
            rearranges(all, expensive_rows(tools@)) && by_cost_desc(all) && r.tools@ == all.take(
                if limit < all.len() { limit as int } else { all.len() as int },
            ),
{
    let n = tools.len();
    let mut rows: Vec<ExpensiveTool> = Vec::new();
    let mut keys: Vec<u128> = Vec::new();
    let mut k: usize = 0;
    while k < n
        invariant
            n == tools@.len(),
            k <= n,
            rows@ == expensive_rows(tools@.subrange(0, k as int)),
            keys@.len() == rows@.len(),
            forall|j: int| 0 <= j < rows@.len() ==> #[trigger] keys@[j] == rows@[j].monthly_cost,
        decreases n - k,
    {
        let t = &tools[k];
        let row = ExpensiveTool {
            id: t.id,
            name: t.name.clone(),
            category: copy_opt(&t.category),
            monthly_cost: t.monthly_cost,
            active_users_count: t.active_users_count,
            efficiency_rating: efficiency_rating(t.monthly_cost, t.active_users_count),
            department: t.owner_department,
        };
        rows.push(row);
        keys.push(t.monthly_cost as u128);
        assert(expensive_rows(tools@.subrange(0, k + 1)) =~= expensive_rows(tools@.subrange(0, k as int)).push(
            expensive_row(tools@[k as int]),
        ));
        k = k + 1;
    }
    assert(tools@.subrange(0, n as int) =~= tools@);
    let perm = order_desc(&keys);
    let mut out: Vec<ExpensiveTool> = Vec::new();
    let mut i: usize = 0;
    while i < perm.len()
        invariant
            is_desc_order(keys@, perm@),
            keys@.len() == rows@.len(),
            i <= perm@.len(),
            out@.len() == i,
            forall|m: int| 0 <= m < i ==> #[trigger] out@[m] == rows@[perm@[m] as int],
        decreases perm@.len() - i,
    {
        out.push(rows[perm[i]].copy());
        i = i + 1;
    }
    proof {
        lemma_apply_order(rows@, keys@, perm@, out@);
        assert forall|i: int, j: int| 0 <= i < j < out@.len() implies #[trigger] out@[i].monthly_cost
            >= #[trigger] out@[j].monthly_cost by {
            assert(keys@[perm@[i] as int] >= keys@[perm@[j] as int]);
        }
    }
    let ghost all = out@;
    if limit < out.len() {
        out.truncate(limit);
    }
    assert(out@ =~= all.take(if limit < all.len() { limit as int } else { all.len() as int }));
    assert(rows@ == expensive_rows(tools@));
    assert(rearranges(all, expensive_rows(tools@)) && by_cost_desc(all));
    ExpensiveToolsResponse { tools: out }
}

// ---------------------------------------------------------- department costs

/// Spending of one department.
#[derive(Clone, Copy, Debug, PartialEq, Eq, Structural)]
pub struct DepartmentCost {
    pub department: Department,
    pub total_cost: u128,
    pub tool_count: u64,
    /// Share of all spending, in tenths of a percent.
    pub percentage: u128,
}

/// The department-costs report.
#[derive(Debug)]
pub struct DepartmentCostsResponse {
    pub total_cost: u128,
    pub departments: Vec<DepartmentCost>,
}

/// Sum of the costs of the tools owned by `d`.
pub open spec fn dept_cost(tools: Seq<Tool>, d: Department) -> int
    decreases tools.len(),
{
    if tools.len() == 0 {
        0
    } else {
        dept_cost(tools.drop_last(), d) + if tools.last().owner_department == d {
            tools.last().monthly_cost as int
        } else {
            0
        }
    }
}

/// Number of tools owned by `d`.
pub open spec fn dept_count(tools: Seq<Tool>, d: Department) -> int
    decreases tools.len(),
{
    if tools.len() == 0 {
        0
    } else {
        dept_count(tools.drop_last(), d) + if tools.last().owner_department == d {
            1int
        } else {
            0
        }
    }
}

/// `part` as a share of `whole`, in tenths of a percent; 0 when `whole` is 0.
pub open spec fn share_tenths(part: int, whole: int) -> int {
    if whole == 0 {
        0
    } else {
        round_div(1000 * part, whole)
    }
}

pub open spec fn dept_row(tools: Seq<Tool>, d: Department) -> DepartmentCost {
    DepartmentCost {
        department: d,
        total_cost: dept_cost(tools, d) as u128,
        tool_count: dept_count(tools, d) as u64,
        percentage: share_tenths(dept_cost(tools, d), cost_sum(tools)) as u128,
    }
}

/// Rows of the departments of rank below `r` that own at least one tool.
pub open spec fn dept_rows_upto(tools: Seq<Tool>, r: nat) -> Seq<DepartmentCost>
    decreases r,
{
    if r == 0 {
        Seq::empty()
    } else {
        let rest = dept_rows_upto(tools, (r - 1) as nat);
        let d = Department::from_rank((r - 1) as nat);
        if dept_count(tools, d) > 0 {
            rest.push(dept_row(tools, d))
        } else {
            rest
        }
    }
}

/// One row per department that owns a tool, in alphabetical order.
pub open spec fn dept_rows(tools: Seq<Tool>) -> Seq<DepartmentCost> {
    dept_rows_upto(tools, 7)
}

pub proof fn lemma_dept_bounds(tools: Seq<Tool>, d: Department)
    ensures
        0 <= dept_cost(tools, d) <= cost_sum(tools),
        0 <= dept_count(tools, d) <= tools.len(),
    decreases tools.len(),
{
    if tools.len() > 0 {
        lemma_dept_bounds(tools.drop_last(), d);
    }
}

/// Total and number of the tools owned by `d`.
fn department_totals(tools: &Vec<Tool>, d: Department) -> (r: (u128, usize))
    requires
        all_valid(tools@),
    ensures
        r.0 == dept_cost(tools@, d),
        r.1 == dept_count(tools@, d),
{
    let n = tools.len();
    let mut total: u128 = 0;
    let mut count: usize = 0;
    let mut k: usize = 0;
    while k < n
        invariant
            n == tools@.len(),
            k <= n,
            all_valid(tools@),
            total == dept_cost(tools@.subrange(0, k as int), d),
            count == dept_count(tools@.subrange(0, k as int), d),
        decreases n - k,
    {
        let ghost pre = tools@.subrange(0, k as int);
        assert(tools@.subrange(0, k + 1).drop_last() =~= pre);
        proof {
            lemma_dept_bounds(pre, d);
            lemma_cost_sum_bound(tools@);
            assert(all_valid(pre));
            lemma_cost_sum_bound(pre);
            assert(pre.len() * MAX_MONTHLY_COST <= 0xFFFF_FFFF_FFFF_FFFF * MAX_MONTHLY_COST) by (nonlinear_arith)
                requires
                    pre.len() <= 0xFFFF_FFFF_FFFF_FFFF,
            ;
            assert(tools@[k as int].valid());
        }
        if tools[k].owner_department == d {
            total = total + tools[k].monthly_cost as u128;
            count = count + 1;
        }
        k = k + 1;
    }
    assert(tools@.subrange(0, n as int) =~= tools@);
    (total, count)
}

/// Sum of the costs of the departments of rank below `r`.
pub open spec fn ranked_cost(tools: Seq<Tool>, r: nat) -> int
    decreases r,
{
    if r == 0 {
        0
    } else {
        ranked_cost(tools, (r - 1) as nat) + dept_cost(tools, Department::from_rank((r - 1) as nat))
    }
}

/// Sum of the shares of the departments of rank below `r` that own a tool.
pub open spec fn ranked_shares(tools: Seq<Tool>, r: nat) -> int
    decreases r,
{
    if r == 0 {
        0
    } else {
        let d = Department::from_rank((r - 1) as nat);
        ranked_shares(tools, (r - 1) as nat) + if dept_count(tools, d) > 0 {
            share_tenths(dept_cost(tools, d), cost_sum(tools))
        } else {
            0
        }
    }
}

/// Number of the departments of rank below `r` that own a tool.
pub open spec fn ranked_present(tools: Seq<Tool>, r: nat) -> int
    decreases r,
{
    if r == 0 {
        0
    } else {
        ranked_present(tools, (r - 1) as nat) + if dept_count(tools, Department::from_rank((r - 1) as nat))
            > 0 {
            1int
        } else {
            0
        }
    }
}

proof fn lemma_ranked_cost_step(tools: Seq<Tool>, r: nat)
    requires
        tools.len() > 0,
        r <= 7,
    ensures
        ranked_cost(tools, r) == ranked_cost(tools.drop_last(), r) + if tools.last().owner_department.rank() < r {
            tools.last().monthly_cost as int
        } else {
            0
        },
    decreases r,
{
    if r > 0 {
        lemma_ranked_cost_step(tools, (r - 1) as nat);
    }
}

proof fn lemma_ranked_cost_empty(tools: Seq<Tool>, r: nat)
    requires
        tools.len() == 0,
    ensures
        ranked_cost(tools, r) == 0,
    decreases r,
{
    if r > 0 {
        lemma_ranked_cost_empty(tools, (r - 1) as nat);
    }
}

proof fn lemma_ranked_cost_total(tools: Seq<Tool>)
    ensures
        ranked_cost(tools, 7) == cost_sum(tools),
    decreases tools.len(),
{
    if tools.len() > 0 {
        lemma_ranked_cost_total(tools.drop_last());
        lemma_ranked_cost_step(tools, 7);
        assert(tools.last().owner_department.rank() < 7);
    } else {
        lemma_ranked_cost_empty(tools, 7);
    }
}

proof fn lemma_absent_costs_nothing(tools: Seq<Tool>, d: Department)
    ensures
        dept_count(tools, d) == 0 ==> dept_cost(tools, d) == 0,
    decreases tools.len(),
{
    if tools.len() > 0 {
        lemma_absent_costs_nothing(tools.drop_last(), d);
        lemma_dept_bounds(tools.drop_last(), d);
    }
}

/// A rounded share is within half a tenth of the exact one.
proof fn lemma_share_error(c: int, g: int)
    requires
        0 <= c,
        g > 0,
    ensures
        -g <= 2000 * c - 2 * g * share_tenths(c, g) <= g,
{
    let x = 2 * (1000 * c) + g;
    let q = x / (2 * g);
    vstd::arithmetic::div_mod::lemma_fundamental_div_mod(x, 2 * g);
    vstd::arithmetic::div_mod::lemma_mod_pos_bound(x, 2 * g);
    assert(x == 2 * g * q + x % (2 * g));
}

proof fn lemma_ranked_shares(tools: Seq<Tool>, r: nat)
    requires
        r <= 7,
        cost_sum(tools) > 0,
    ensures
        -ranked_present(tools, r) * cost_sum(tools) <= 2000 * ranked_cost(tools, r) - 2 * cost_sum(tools)
            * ranked_shares(tools, r) <= ranked_present(tools, r) * cost_sum(tools),
    decreases r,
{
    if r > 0 {
        let g = cost_sum(tools);
        let d = Department::from_rank((r - 1) as nat);
        lemma_ranked_shares(tools, (r - 1) as nat);
        lemma_dept_bounds(tools, d);
        lemma_absent_costs_nothing(tools, d);
        if dept_count(tools, d) > 0 {
            lemma_share_error(dept_cost(tools, d), g);
        }
        let a = ranked_cost(tools, (r - 1) as nat);
        let b = ranked_shares(tools, (r - 1) as nat);
        let n = ranked_present(tools, (r - 1) as nat);
        let s = if dept_count(tools, d) > 0 { share_tenths(dept_cost(tools, d), g) } else { 0 };
        let m = if dept_count(tools, d) > 0 { 1int } else { 0 };
        if dept_count(tools, d) > 0 {
            assert(m * g == g);
        } else {
            assert(m * g == 0);
        }
        assert(-(n + m) * g <= 2000 * (a + dept_cost(tools, d)) - 2 * g * (b + s) <= (n + m) * g)
            by (nonlinear_arith)
            requires
                -n * g <= 2000 * a - 2 * g * b <= n * g,
                -m * g <= 2000 * dept_cost(tools, d) - 2 * g * s <= m * g,
        ;
    }
}

/// When some tool costs anything, the departments' rounded shares add up to
/// 100% give or take half a tenth per department: twice the gap to 1000
/// tenths is at most the number of departments listed (so with one or two
/// departments the shares sum to 100.0 within 0.1).
pub proof fn lemma_department_shares_sum(tools: Seq<Tool>)
    requires
        cost_sum(tools) > 0,
    ensures
        -ranked_present(tools, 7) <= 2 * (ranked_shares(tools, 7) - 1000) <= ranked_present(tools, 7),
        ranked_present(tools, 7) == dept_rows(tools).len(),
{
    let g = cost_sum(tools);
    lemma_ranked_shares(tools, 7);
    lemma_ranked_cost_total(tools);
    let n = ranked_present(tools, 7);
    let t = ranked_shares(tools, 7);
    assert(-n <= 2 * (t - 1000) <= n) by (nonlinear_arith)
        requires
            g > 0,
            -n * g <= 2000 * g - 2 * g * t <= n * g,
    ;
    lemma_present_rows(tools, 7);
}

proof fn lemma_present_rows(tools: Seq<Tool>, r: nat)
    ensures
        ranked_present(tools, r) == dept_rows_upto(tools, r).len(),
    decreases r,
{
    if r > 0 {
        lemma_present_rows(tools, (r - 1) as nat);
    }
}

/// Total and per-department spending; departments by decreasing total, each
/// with its share of the grand total.
pub fn get_department_costs(tools: &Vec<Tool>) -> (r: DepartmentCostsResponse)
    requires
        all_valid(tools@),
    ensures
        r.total_cost == cost_sum(tools@),
        rearranges(r.departments@, dept_rows(tools@)),
        forall|i: int, j: int|
            0 <= i < j < r.departments@.len() ==> #[trigger] r.departments@[i].total_cost
                >= #[trigger] r.departments@[j].total_cost,
{
    let n = tools.len();
    let mut grand: u128 = 0;
    let mut k: usize = 0;
    proof {
        lemma_cost_sum_bound(tools@);
    }
    while k < n
        invariant
            n == tools@.len(),
            k <= n,
            all_valid(tools@),
            grand == cost_sum(tools@.subrange(0, k as int)),
        decreases n - k,
    {
        let ghost pre = tools@.subrange(0, k as int);
        assert(tools@.subrange(0, k + 1).drop_last() =~= pre);
        proof {
            assert(all_valid(pre));
            lemma_cost_sum_bound(pre);
            assert(pre.len() * MAX_MONTHLY_COST <= 0xFFFF_FFFF_FFFF_FFFF * MAX_MONTHLY_COST) by (nonlinear_arith)
                requires
                    pre.len() <= 0xFFFF_FFFF_FFFF_FFFF,
            ;
            assert(tools@[k as int].valid());
        }
        grand = grand + tools[k].monthly_cost as u128;
        k = k + 1;
    }
    assert(tools@.subrange(0, n as int) =~= tools@);
    proof {
        assert(n * MAX_MONTHLY_COST <= 0xFFFF_FFFF_FFFF_FFFF * MAX_MONTHLY_COST) by (nonlinear_arith)
            requires
                n <= 0xFFFF_FFFF_FFFF_FFFF,
        ;
    }
    let mut rows: Vec<DepartmentCost> = Vec::new();
    let mut keys: Vec<u128> = Vec::new();
    let mut p: usize = 0;
    while p < 7
        invariant
            p <= 7,
            all_valid(tools@),
            grand == cost_sum(tools@),
            grand <= 0xFFFF_FFFF_FFFF_FFFF * MAX_MONTHLY_COST,
            rows@ == dept_rows_upto(tools@, p as nat),
            keys@.len() == rows@.len(),
            forall|j: int| 0 <= j < rows@.len() ==> #[trigger] keys@[j] == rows@[j].total_cost,
        decreases 7 - p,
    {
        let d = Department::at_position(p);
        let (total, count) = department_totals(tools, d);
        proof {
            lemma_dept_bounds(tools@, d);
        }
        if count > 0 {
            let pct: u128 = if grand == 0 {
                0
            } else {
                div_round(1000 * total, grand)
            };
            rows.push(DepartmentCost { department: d, total_cost: total, tool_count: count as u64, percentage: pct });
            keys.push(total);
        }
        p = p + 1;
    }
    let perm = order_desc(&keys);
    let mut out: Vec<DepartmentCost> = Vec::new();
    let mut i: usize = 0;
    while i < perm.len()
        invariant
            is_desc_order(keys@, perm@),
            keys@.len() == rows@.len(),
            i <= perm@.len(),
            out@.len() == i,
            forall|m: int| 0 <= m < i ==> #[trigger] out@[m] == rows@[perm@[m] as int],
        decreases perm@.len() - i,
    {
        out.push(rows[perm[i]]);
        i = i + 1;
    }
    proof {
        lemma_apply_order(rows@, keys@, perm@, out@);
        assert forall|i: int, j: int| 0 <= i < j < out@.len() implies #[trigger] out@[i].total_cost
            >= #[trigger] out@[j].total_cost by {
            assert(keys@[perm@[i] as int] >= keys@[perm@[j] as int]);
        }
    }
    DepartmentCostsResponse { total_cost: grand, departments: out }
}

// ------------------------------------------------------------ vendor summary

/// A tool in a vendor's portfolio.
#[derive(Debug)]
pub struct VendorTool {
    pub name: String,
    pub monthly_cost: u64,
    pub department: Department,
}

impl VendorTool {
    pub fn copy(&self) -> (r: VendorTool)
        ensures
            r == *self,
    {
        VendorTool { name: self.name.clone(), monthly_cost: self.monthly_cost, department: self.department }
    }
}

/// Spending with one vendor.
#[derive(Debug)]
pub struct VendorSummary {
    pub vendor: String,
    pub tool_count: u64,
    pub total_cost: u128,
    pub average_cost: u128,
    /// Names of the departments using the vendor's tools, alphabetical, joined by ", ".
    pub departments: String,
    pub tools: Vec<VendorTool>,
}

/// The vendor-summary report.
#[derive(Debug)]
pub struct VendorSummaryResponse {
    pub vendors: Vec<VendorSummary>,
}

/// `t` comes from vendor `v` (a tool without vendor comes from none).
pub open spec fn from_vendor(t: Tool, v: Seq<char>) -> bool {
    t.vendor matches Some(x) && x@ == v
}

/// The distinct vendors of `tools`, in order of first appearance.
pub open spec fn vendor_names(tools: Seq<Tool>) -> Seq<Seq<char>>
    decreases tools.len(),
{
    if tools.len() == 0 {
        Seq::empty()
    } else {
        let rest = vendor_names(tools.drop_last());
        match tools.last().vendor {
            Some(v) => if rest.contains(v@) {
                rest
            } else {
                rest.push(v@)
            },
            None => rest,
        }
    }
}

pub open spec fn vendor_cost(tools: Seq<Tool>, v: Seq<char>) -> int
    decreases tools.len(),
{
    if tools.len() == 0 {
        0
    } else {
        vendor_cost(tools.drop_last(), v) + if from_vendor(tools.last(), v) {
            tools.last().monthly_cost as int
        } else {
            0
        }
    }
}

pub open spec fn vendor_count(tools: Seq<Tool>, v: Seq<char>) -> int
    decreases tools.len(),
{
    if tools.len() == 0 {
        0
    } else {
        vendor_count(tools.drop_last(), v) + if from_vendor(tools.last(), v) {
            1int
        } else {
            0
        }
    }
}

pub open spec fn vendor_tool_row(t: Tool) -> VendorTool {
    VendorTool { name: t.name, monthly_cost: t.monthly_cost, department: t.owner_department }
}

/// Rows of the tools of vendor `v`, in the order of `tools`.
pub open spec fn vendor_tool_rows(tools: Seq<Tool>, v: Seq<char>) -> Seq<VendorTool>
    decreases tools.len(),
{
    if tools.len() == 0 {
        Seq::empty()
    } else {
        let rest = vendor_tool_rows(tools.drop_last(), v);
        if from_vendor(tools.last(), v) {
            rest.push(vendor_tool_row(tools.last()))
        } else {
            rest
        }
    }
}

/// Some tool of vendor `v` belongs to department `d`.
pub open spec fn vendor_uses(tools: Seq<Tool>, v: Seq<char>, d: Department) -> bool {
    exists|i: int| 0 <= i < tools.len() && from_vendor(#[trigger] tools[i], v) && tools[i].owner_department == d
}

/// Names of the departments of rank below `r` that use vendor `v`, joined by ", ".
pub open spec fn dept_list(tools: Seq<Tool>, v: Seq<char>, r: nat) -> Seq<char>
    decreases r,
{
    if r == 0 {
        Seq::empty()
    } else {
        let prev = dept_list(tools, v, (r - 1) as nat);
        let d = Department::from_rank((r - 1) as nat);
        if vendor_uses(tools, v, d) {
            if prev.len() == 0 {
                d.spec_name()
            } else {
                prev + ", "@ + d.spec_name()
            }
        } else {
            prev
        }
    }
}

/// Mean rounded half-up; 0 for no items.
pub open spec fn mean(total: int, count: int) -> int {
    if count == 0 {
        0
    } else {
        round_div(total, count)
    }
}

/// What the summary of one vendor holds.
pub open spec fn vendor_summary_of(tools: Seq<Tool>, s: VendorSummary) -> bool {
    &&& s.tool_count == vendor_count(tools, s.vendor@)
    &&& s.total_cost == vendor_cost(tools, s.vendor@)
    &&& s.average_cost == mean(vendor_cost(tools, s.vendor@), vendor_count(tools, s.vendor@))
    &&& s.departments@ == dept_list(tools, s.vendor@, 7)
    &&& rearranges(s.tools@, vendor_tool_rows(tools, s.vendor@))
    &&& forall|i: int, j: int|
        0 <= i < j < s.tools@.len() ==> #[trigger] s.tools@[i].monthly_cost >= #[trigger] s.tools@[j].monthly_cost
}

pub proof fn lemma_vendor_bounds(tools: Seq<Tool>, v: Seq<char>)
    ensures
        0 <= vendor_cost(tools, v) <= cost_sum(tools),
        0 <= vendor_count(tools, v) <= tools.len(),
        vendor_tool_rows(tools, v).len() == vendor_count(tools, v),
    decreases tools.len(),
{
    if tools.len() > 0 {
        lemma_vendor_bounds(tools.drop_last(), v);
    }
}

/// Position of the name `v` in `names`, if present.
fn find_name(names: &Vec<String>, v: &String) -> (r: Option<usize>)
    ensures
        r matches Some(j) ==> j < names@.len() && names@[j as int]@ == v@,
        r is None ==> forall|j: int| 0 <= j < names@.len() ==> #[trigger] names@[j]@ != v@,
{
    let n = names.len();
    let mut j: usize = 0;
    while j < n
        invariant
            n == names@.len(),
            j <= n,
            forall|m: int| 0 <= m < j ==> #[trigger] names@[m]@ != v@,
        decreases n - j,
    {
        if names[j] == *v {
            return Some(j);
        }
        j = j + 1;
    }
    None
}

/// Total cost and number of the tools of vendor `v`.
fn vendor_totals(tools: &Vec<Tool>, v: &String) -> (r: (u128, usize))
    requires
        all_valid(tools@),
    ensures
        r.0 == vendor_cost(tools@, v@),
        r.1 == vendor_count(tools@, v@),
{
    let n = tools.len();
    let mut total: u128 = 0;
    let mut count: usize = 0;
    let mut k: usize = 0;
    while k < n
        invariant
            n == tools@.len(),
            k <= n,
            all_valid(tools@),
            total == vendor_cost(tools@.subrange(0, k as int), v@),
            count == vendor_count(tools@.subrange(0, k as int), v@),
        decreases n - k,
    {
        let ghost pre = tools@.subrange(0, k as int);
        assert(tools@.subrange(0, k + 1).drop_last() =~= pre);
        proof {
            lemma_vendor_bounds(pre, v@);
            assert(all_valid(pre));
            lemma_cost_sum_bound(pre);
            assert(pre.len() * MAX_MONTHLY_COST <= 0xFFFF_FFFF_FFFF_FFFF * MAX_MONTHLY_COST) by (nonlinear_arith)
                requires
                    pre.len() <= 0xFFFF_FFFF_FFFF_FFFF,
            ;
            assert(tools@[k as int].valid());
        }
        let hit = match &tools[k].vendor {
            Some(x) => *x == *v,
            None => false,
        };
        if hit {
            total = total + tools[k].monthly_cost as u128;
            count = count + 1;
        }
        k = k + 1;
    }
    assert(tools@.subrange(0, n as int) =~= tools@);
    (total, count)
}

/// The tools of vendor `v`, most expensive first.
fn vendor_tools_sorted(tools: &Vec<Tool>, v: &String) -> (r: Vec<VendorTool>)
    ensures
        rearranges(r@, vendor_tool_rows(tools@, v@)),
        forall|i: int, j: int|
            0 <= i < j < r@.len() ==> #[trigger] r@[i].monthly_cost >= #[trigger] r@[j].monthly_cost,
{
    let n = tools.len();
    let mut rows: Vec<VendorTool> = Vec::new();
    let mut keys: Vec<u128> = Vec::new();
    let mut k: usize = 0;
    while k < n
        invariant
            n == tools@.len(),
            k <= n,
            rows@ == vendor_tool_rows(tools@.subrange(0, k as int), v@),
            keys@.len() == rows@.len(),
            forall|j: int| 0 <= j < rows@.len() ==> #[trigger] keys@[j] == rows@[j].monthly_cost,
        decreases n - k,
    {
        assert(tools@.subrange(0, k + 1).drop_last() =~= tools@.subrange(0, k as int));
        let t = &tools[k];
        let hit = match &t.vendor {
            Some(x) => *x == *v,
            None => false,
        };
        if hit {
            rows.push(VendorTool { name: t.name.clone(), monthly_cost: t.monthly_cost, department: t.owner_department });
            keys.push(t.monthly_cost as u128);
        }
        k = k + 1;
    }
    assert(tools@.subrange(0, n as int) =~= tools@);
    let perm = order_desc(&keys);
    let mut out: Vec<VendorTool> = Vec::new();
    let mut i: usize = 0;
    while i < perm.len()
        invariant
            is_desc_order(keys@, perm@),
            keys@.len() == rows@.len(),
            i <= perm@.len(),
            out@.len() == i,
            forall|m: int| 0 <= m < i ==> #[trigger] out@[m] == rows@[perm@[m] as int],
        decreases perm@.len() - i,
    {
        out.push(rows[perm[i]].copy());
        i = i + 1;
    }
    proof {
        lemma_apply_order(rows@, keys@, perm@, out@);
        assert forall|i: int, j: int| 0 <= i < j < out@.len() implies #[trigger] out@[i].monthly_cost
            >= #[trigger] out@[j].monthly_cost by {
            assert(keys@[perm@[i] as int] >= keys@[perm@[j] as int]);
        }
    }
    out
}

/// Whether some tool of vendor `v` belongs to department `d`.
fn vendor_uses_department(tools: &Vec<Tool>, v: &String, d: Department) -> (r: bool)
    ensures
        r == vendor_uses(tools@, v@, d),
{
    let n = tools.len();
    let mut k: usize = 0;
    while k < n
        invariant
            n == tools@.len(),
            k <= n,
            forall|m: int|
                0 <= m < k ==> !(from_vendor(#[trigger] tools@[m], v@) && tools@[m].owner_department == d),
        decreases n - k,
    {
        let t = &tools[k];
        let hit = match &t.vendor {
            Some(x) => *x == *v,
            None => false,
        };
        if hit && t.owner_department == d {
            assert(from_vendor(tools@[k as int], v@) && tools@[k as int].owner_department == d);
            return true;
        }
        k = k + 1;
    }
    false
}

/// Names of the departments using vendor `v`, alphabetical, joined by ", ".
fn vendor_departments(tools: &Vec<Tool>, v: &String) -> (r: String)
    ensures
        r@ == dept_list(tools@, v@, 7),
{
    let mut out = String::new();
    let mut p: usize = 0;
    while p < 7
        invariant
            p <= 7,
            out@ == dept_list(tools@, v@, p as nat),
        decreases 7 - p,
    {
        let d = Department::at_position(p);
        if vendor_uses_department(tools, v, d) {
            if out.as_str().unicode_len() == 0 {
                out.append(d.as_str());
            } else {
                out.append(", ");
                out.append(d.as_str());
            }
        }
        p = p + 1;
    }
    out
}

/// The distinct vendors, in order of first appearance.
fn distinct_vendors(tools: &Vec<Tool>) -> (r: Vec<String>)
    ensures
        r@.len() == vendor_names(tools@).len(),
        forall|j: int| 0 <= j < r@.len() ==> #[trigger] r@[j]@ == vendor_names(tools@)[j],
{
    let n = tools.len();
    let mut names: Vec<String> = Vec::new();
    let mut k: usize = 0;
    while k < n
        invariant
            n == tools@.len(),
            k <= n,
            names@.len() == vendor_names(tools@.subrange(0, k as int)).len(),
            forall|j: int| 0 <= j < names@.len() ==> #[trigger] names@[j]@ == vendor_names(
                tools@.subrange(0, k as int),
            )[j],
        decreases n - k,
    {
        let ghost pre = tools@.subrange(0, k as int);
        assert(tools@.subrange(0, k + 1).drop_last() =~= pre);
        match &tools[k].vendor {
            Some(v) => {
                match find_name(&names, v) {
                    Some(j) => {
                        assert(vendor_names(pre)[j as int] == v@);
                        assert(vendor_names(pre).contains(v@));
                    },
                    None => {
                        assert(!vendor_names(pre).contains(v@)) by {
                            if vendor_names(pre).contains(v@) {
                                let j = choose|j: int| 0 <= j < vendor_names(pre).len() && vendor_names(pre)[j] == v@;
                                assert(names@[j]@ != v@);
                            }
                        }
                        names.push(v.clone());
                    },
                }
            },
            None => {},
        }
        k = k + 1;
    }
    assert(tools@.subrange(0, n as int) =~= tools@);
    names
}

pub proof fn lemma_vendor_names_distinct(tools: Seq<Tool>)
    ensures
        forall|i: int, j: int|
            0 <= i < j < vendor_names(tools).len() ==> #[trigger] vendor_names(tools)[i] != #[trigger] vendor_names(
                tools,
            )[j],
    decreases tools.len(),
{
    if tools.len() > 0 {
        lemma_vendor_names_distinct(tools.drop_last());
        let rest = vendor_names(tools.drop_last());
        match tools.last().vendor {
            Some(v) => {
                if !rest.contains(v@) {
                    assert forall|i: int| 0 <= i < rest.len() implies rest[i] != v@ by {
                        if rest[i] == v@ {
                            assert(rest.contains(v@));
                        }
                    }
                    assert(vendor_names(tools) == rest.push(v@));
                    assert forall|i: int, j: int| 0 <= i < j < vendor_names(tools).len() implies #[trigger] vendor_names(tools)[i]
                        != #[trigger] vendor_names(tools)[j] by {
                        if j < rest.len() {
                            assert(rest[i] != rest[j]);
                        } else {
                            assert(rest[i] != v@);
                        }
                    }
                }
            },
            None => {},
        }
    }
}

/// One summary per vendor named by some tool, by decreasing total cost;
/// tools without a vendor are left out.
pub fn get_vendor_summary(tools: &Vec<Tool>) -> (r: VendorSummaryResponse)
    requires
        all_valid(tools@),
    ensures
        r.vendors@.len() == vendor_names(tools@).len(),
        forall|i: int| 0 <= i < r.vendors@.len() ==> vendor_names(tools@).contains(#[trigger] r.vendors@[i].vendor@),
        forall|i: int| 0 <= i < r.vendors@.len() ==> vendor_summary_of(tools@, #[trigger] r.vendors@[i]),
        forall|i: int, j: int|
            0 <= i < j < r.vendors@.len() ==> #[trigger] r.vendors@[i].vendor@ != #[trigger] r.vendors@[j].vendor@,
        forall|i: int, j: int|
            0 <= i < j < r.vendors@.len() ==> #[trigger] r.vendors@[i].total_cost >= #[trigger] r.vendors@[j].total_cost,
{
    let names = distinct_vendors(tools);
    let m = names.len();
    let mut totals: Vec<u128> = Vec::new();
    let mut counts: Vec<usize> = Vec::new();
    let mut j: usize = 0;
    while j < m
        invariant
            m == names@.len(),
            j <= m,
            all_valid(tools@),
            totals@.len() == j,
            counts@.len() == j,
            forall|x: int| 0 <= x < j ==> #[trigger] totals@[x] == vendor_cost(tools@, names@[x]@),
            forall|x: int| 0 <= x < j ==> #[trigger] counts@[x] == vendor_count(tools@, names@[x]@),
        decreases m - j,
    {
        let (t, c) = vendor_totals(tools, &names[j]);
        totals.push(t);
        counts.push(c);
        j = j + 1;
    }
    let perm = order_desc(&totals);
    let mut out: Vec<VendorSummary> = Vec::new();
    let mut i: usize = 0;
    proof {
        lemma_vendor_names_distinct(tools@);
    }
    let n = tools.len();
    while i < m
        invariant
            n == tools@.len(),
            all_valid(tools@),
            m == names@.len(),
            m == totals@.len(),
            m == counts@.len(),
            names@.len() == vendor_names(tools@).len(),
            forall|x: int| 0 <= x < m ==> #[trigger] names@[x]@ == vendor_names(tools@)[x],
            forall|x: int| 0 <= x < m ==> #[trigger] totals@[x] == vendor_cost(tools@, names@[x]@),
            forall|x: int| 0 <= x < m ==> #[trigger] counts@[x] == vendor_count(tools@, names@[x]@),
            is_desc_order(totals@, perm@),
            i <= m,
            out@.len() == i,
            forall|x: int| 0 <= x < i ==> #[trigger] out@[x].vendor@ == names@[perm@[x] as int]@,
            forall|x: int| 0 <= x < i ==> vendor_summary_of(tools@, #[trigger] out@[x]),
        decreases m - i,
    {
        let p = perm[i];
        let v = &names[p];
        let total = totals[p];
        let count = counts[p];
        proof {
            lemma_vendor_bounds(tools@, v@);
            lemma_cost_sum_bound(tools@);
            assert(n * MAX_MONTHLY_COST <= 0xFFFF_FFFF_FFFF_FFFF * MAX_MONTHLY_COST) by (nonlinear_arith)
                requires
                    n <= 0xFFFF_FFFF_FFFF_FFFF,
            ;
        }
        let average = if count == 0 {
            0
        } else {
            div_round(total, count as u128)
        };
        let summary = VendorSummary {
            vendor: v.clone(),
            tool_count: count as u64,
            total_cost: total,
            average_cost: average,
            departments: vendor_departments(tools, v),
            tools: vendor_tools_sorted(tools, v),
        };
        out.push(summary);
        i = i + 1;
    }
    proof {
        assert forall|i: int| 0 <= i < out@.len() implies vendor_names(tools@).contains(
            #[trigger] out@[i].vendor@,
        ) by {
            assert(out@[i].vendor@ == vendor_names(tools@)[perm@[i] as int]);
        }
        assert forall|i: int, j: int| 0 <= i < j < out@.len() implies #[trigger] out@[i].vendor@
            != #[trigger] out@[j].vendor@ by {
            assert(before(totals@, perm@[i] as int, perm@[j] as int));
            assert(perm@[i] != perm@[j]);
            assert(out@[i].vendor@ == vendor_names(tools@)[perm@[i] as int]);
            assert(out@[j].vendor@ == vendor_names(tools@)[perm@[j] as int]);
        }
        assert forall|i: int, j: int| 0 <= i < j < out@.len() implies #[trigger] out@[i].total_cost
            >= #[trigger] out@[j].total_cost by {
            assert(before(totals@, perm@[i] as int, perm@[j] as int));
        }
    }
    VendorSummaryResponse { vendors: out }
}

/// A tool without a vendor adds no vendor and nothing to any vendor's count,
/// cost or tool list.
pub proof fn lemma_no_vendor_excluded(tools: Seq<Tool>, t: Tool, v: Seq<char>)
    requires
        t.vendor is None,
    ensures
        vendor_names(tools.push(t)) == vendor_names(tools),
        vendor_count(tools.push(t), v) == vendor_count(tools, v),
        vendor_cost(tools.push(t), v) == vendor_cost(tools, v),
        vendor_tool_rows(tools.push(t), v) == vendor_tool_rows(tools, v),
{
    assert(tools.push(t).drop_last() =~= tools);
}

// ------------------------------------------------------- tools by category

/// A tool within a category.
#[derive(Debug)]
pub struct CategoryTool {
    pub id: i32,
    pub name: String,
    pub monthly_cost: u64,
    pub status: ToolStatus,
}

impl CategoryTool {
    pub fn copy(&self) -> (r: CategoryTool)
        ensures
            r == *self,
    {
        CategoryTool { id: self.id, name: self.name.clone(), monthly_cost: self.monthly_cost, status: self.status }
    }
}

/// Extremes and usage of a category; among tools of equal cost the one found
/// first (lowest id) is named.
#[derive(Debug)]
pub struct CategoryInsights {
    pub most_expensive: Option<String>,
    pub least_expensive: Option<String>,
    /// Mean number of active users, in tenths.
    pub avg_users: u128,
}

/// One category with its tools.
#[derive(Debug)]
pub struct CategoryTools {
    pub category_id: i32,
    pub category_name: String,
    pub tool_count: u64,
    pub average_cost: u128,
    pub total_cost: u128,
    pub tools: Vec<CategoryTool>,
    pub insights: CategoryInsights,
}

/// The tools-by-category report.
#[derive(Debug)]
pub struct CategoryToolsResponse {
    pub categories: Vec<CategoryTools>,
}

pub open spec fn cat_cost(tools: Seq<Tool>, c: i32) -> int
    decreases tools.len(),
{
    if tools.len() == 0 {
        0
    } else {
        cat_cost(tools.drop_last(), c) + if tools.last().category_id == c {
            tools.last().monthly_cost as int
        } else {
            0
        }
    }
}

pub open spec fn cat_count(tools: Seq<Tool>, c: i32) -> int
    decreases tools.len(),
{
    if tools.len() == 0 {
        0
    } else {
        cat_count(tools.drop_last(), c) + if tools.last().category_id == c {
            1int
        } else {
            0
        }
    }
}

pub open spec fn cat_users(tools: Seq<Tool>, c: i32) -> int
    decreases tools.len(),
{
    if tools.len() == 0 {
        0
    } else {
        cat_users(tools.drop_last(), c) + if tools.last().category_id == c {
            tools.last().active_users_count as int
        } else {
            0
        }
    }
}

pub open spec fn category_tool_row(t: Tool) -> CategoryTool {
    CategoryTool { id: t.id, name: t.name, monthly_cost: t.monthly_cost, status: t.status }
}

pub open spec fn category_tool_rows(tools: Seq<Tool>, c: i32) -> Seq<CategoryTool>
    decreases tools.len(),
{
    if tools.len() == 0 {
        Seq::empty()
    } else {
        let rest = category_tool_rows(tools.drop_last(), c);
        if tools.last().category_id == c {
            rest.push(category_tool_row(tools.last()))
        } else {
            rest
        }
    }
}

/// `tools[i]` is the first tool of category `c` with the highest cost.
pub open spec fn is_most_expensive(tools: Seq<Tool>, c: i32, i: int) -> bool {
    &&& 0 <= i < tools.len()
    &&& tools[i].category_id == c
    &&& forall|j: int| 0 <= j < tools.len() && #[trigger] tools[j].category_id == c ==> tools[j].monthly_cost <= tools[i].monthly_cost
    &&& forall|j: int| 0 <= j < i && #[trigger] tools[j].category_id == c ==> tools[j].monthly_cost < tools[i].monthly_cost
}

/// `tools[i]` is the first tool of category `c` with the lowest cost.
pub open spec fn is_least_expensive(tools: Seq<Tool>, c: i32, i: int) -> bool {
    &&& 0 <= i < tools.len()
    &&& tools[i].category_id == c
    &&& forall|j: int| 0 <= j < tools.len() && #[trigger] tools[j].category_id == c ==> tools[j].monthly_cost >= tools[i].monthly_cost
    &&& forall|j: int| 0 <= j < i && #[trigger] tools[j].category_id == c ==> tools[j].monthly_cost > tools[i].monthly_cost
}

/// What the entry of category `c` holds.
pub open spec fn category_summary_of(tools: Seq<Tool>, s: CategoryTools) -> bool {
    let c = s.category_id;
    &&& s.tool_count == cat_count(tools, c)
    &&& s.total_cost == cat_cost(tools, c)
    &&& s.average_cost == mean(cat_cost(tools, c), cat_count(tools, c))
    &&& rearranges(s.tools@, category_tool_rows(tools, c))
    &&& forall|i: int, j: int|
        0 <= i < j < s.tools@.len() ==> #[trigger] s.tools@[i].monthly_cost >= #[trigger] s.tools@[j].monthly_cost
    &&& s.insights.avg_users == mean(10 * cat_users(tools, c), cat_count(tools, c))
    &&& (s.insights.most_expensive is None <==> cat_count(tools, c) == 0)
    &&& (s.insights.least_expensive is None <==> cat_count(tools, c) == 0)
    &&& (s.insights.most_expensive matches Some(nm) ==> exists|i: int|
        is_most_expensive(tools, c, i) && #[trigger] tools[i].name == nm)
    &&& (s.insights.least_expensive matches Some(nm) ==> exists|i: int|
        is_least_expensive(tools, c, i) && #[trigger] tools[i].name == nm)
}

pub proof fn lemma_category_bounds(tools: Seq<Tool>, c: i32)
    ensures
        0 <= cat_cost(tools, c) <= cost_sum(tools),
        0 <= cat_count(tools, c) <= tools.len(),
        0 <= cat_users(tools, c) <= tools.len() * 0xFFFF_FFFF,
    decreases tools.len(),
{
    if tools.len() > 0 {
        lemma_category_bounds(tools.drop_last(), c);
    }
}

/// Totals of category `c`: cost, number of tools, and active users.
fn category_totals(tools: &Vec<Tool>, c: i32) -> (r: (u128, usize, u128))
    requires
        all_valid(tools@),
    ensures
        r.0 == cat_cost(tools@, c),
        r.1 == cat_count(tools@, c),
        r.2 == cat_users(tools@, c),
{
    let n = tools.len();
    let mut total: u128 = 0;
    let mut count: usize = 0;
    let mut users: u128 = 0;
    let mut k: usize = 0;
    while k < n
        invariant
            n == tools@.len(),
            k <= n,
            all_valid(tools@),
            total == cat_cost(tools@.subrange(0, k as int), c),
            count == cat_count(tools@.subrange(0, k as int), c),
            users == cat_users(tools@.subrange(0, k as int), c),
        decreases n - k,
    {
        let ghost pre = tools@.subrange(0, k as int);
        assert(tools@.subrange(0, k + 1).drop_last() =~= pre);
        proof {
            lemma_category_bounds(pre, c);
            assert(all_valid(pre));
            lemma_cost_sum_bound(pre);
            assert(pre.len() * MAX_MONTHLY_COST <= 0xFFFF_FFFF_FFFF_FFFF * MAX_MONTHLY_COST) by (nonlinear_arith)
                requires
                    pre.len() <= 0xFFFF_FFFF_FFFF_FFFF,
            ;
            assert(pre.len() * 0xFFFF_FFFF <= 0xFFFF_FFFF_FFFF_FFFF * 0xFFFF_FFFF) by (nonlinear_arith)
                requires
                    pre.len() <= 0xFFFF_FFFF_FFFF_FFFF,
            ;
            assert(tools@[k as int].valid());
        }
        if tools[k].category_id == c {
            total = total + tools[k].monthly_cost as u128;
            count = count + 1;
            users = users + tools[k].active_users_count as u128;
        }
        k = k + 1;
    }
    assert(tools@.subrange(0, n as int) =~= tools@);
    (total, count, users)
}

/// Positions of the first most and first least expensive tools of category `c`.
fn category_extremes(tools: &Vec<Tool>, c: i32) -> (r: Option<(usize, usize)>)
    ensures
        r is None <==> forall|j: int| 0 <= j < tools@.len() ==> #[trigger] tools@[j].category_id != c,
        r matches Some(p) ==> is_most_expensive(tools@, c, p.0 as int) && is_least_expensive(tools@, c, p.1 as int),
{
    let n = tools.len();
    let mut best: Option<(usize, usize)> = None;
    let mut k: usize = 0;
    while k < n
        invariant
            n == tools@.len(),
            k <= n,
            best is None <==> forall|j: int| 0 <= j < k ==> #[trigger] tools@[j].category_id != c,
            best matches Some(p) ==> {
                &&& p.0 < k && p.1 < k
                &&& tools@[p.0 as int].category_id == c
                &&& tools@[p.1 as int].category_id == c
                &&& forall|j: int| 0 <= j < k && #[trigger] tools@[j].category_id == c ==> tools@[j].monthly_cost <= tools@[p.0 as int].monthly_cost
                &&& forall|j: int| 0 <= j < p.0 && #[trigger] tools@[j].category_id == c ==> tools@[j].monthly_cost < tools@[p.0 as int].monthly_cost
                &&& forall|j: int| 0 <= j < k && #[trigger] tools@[j].category_id == c ==> tools@[j].monthly_cost >= tools@[p.1 as int].monthly_cost
                &&& forall|j: int| 0 <= j < p.1 && #[trigger] tools@[j].category_id == c ==> tools@[j].monthly_cost > tools@[p.1 as int].monthly_cost
            },
        decreases n - k,
    {
        if tools[k].category_id == c {
            let cost = tools[k].monthly_cost;
            best = match best {
                None => Some((k, k)),
                Some((hi, lo)) => {
                    let hi2 = if cost > tools[hi].monthly_cost { k } else { hi };
                    let lo2 = if cost < tools[lo].monthly_cost { k } else { lo };
                    Some((hi2, lo2))
                },
            };
        }
        k = k + 1;
    }
    best
}

/// The tools of category `c`, most expensive first.
fn category_tools_sorted(tools: &Vec<Tool>, c: i32) -> (r: Vec<CategoryTool>)
    ensures
        rearranges(r@, category_tool_rows(tools@, c)),
        forall|i: int, j: int|
            0 <= i < j < r@.len() ==> #[trigger] r@[i].monthly_cost >= #[trigger] r@[j].monthly_cost,
{
    let n = tools.len();
    let mut rows: Vec<CategoryTool> = Vec::new();
    let mut keys: Vec<u128> = Vec::new();
    let mut k: usize = 0;
    while k < n
        invariant
            n == tools@.len(),
            k <= n,
            rows@ == category_tool_rows(tools@.subrange(0, k as int), c),
            keys@.len() == rows@.len(),
            forall|j: int| 0 <= j < rows@.len() ==> #[trigger] keys@[j] == rows@[j].monthly_cost,
        decreases n - k,
    {
        assert(tools@.subrange(0, k + 1).drop_last() =~= tools@.subrange(0, k as int));
        let t = &tools[k];
        if t.category_id == c {
            rows.push(CategoryTool { id: t.id, name: t.name.clone(), monthly_cost: t.monthly_cost, status: t.status });
            keys.push(t.monthly_cost as u128);
        }
        k = k + 1;
    }
    assert(tools@.subrange(0, n as int) =~= tools@);
    let perm = order_desc(&keys);
    let mut out: Vec<CategoryTool> = Vec::new();
    let mut i: usize = 0;
    while i < perm.len()
        invariant
            is_desc_order(keys@, perm@),
            keys@.len() == rows@.len(),
            i <= perm@.len(),
            out@.len() == i,
            forall|m: int| 0 <= m < i ==> #[trigger] out@[m] == rows@[perm@[m] as int],
        decreases perm@.len() - i,
    {
        out.push(rows[perm[i]].copy());
        i = i + 1;
    }
    proof {
        lemma_apply_order(rows@, keys@, perm@, out@);
        assert forall|i: int, j: int| 0 <= i < j < out@.len() implies #[trigger] out@[i].monthly_cost
            >= #[trigger] out@[j].monthly_cost by {
            assert(keys@[perm@[i] as int] >= keys@[perm@[j] as int]);
        }
    }
    out
}

pub proof fn lemma_count_zero(tools: Seq<Tool>, c: i32)
    ensures
        cat_count(tools, c) == 0 <==> forall|j: int| 0 <= j < tools.len() ==> #[trigger] tools[j].category_id != c,
    decreases tools.len(),
{
    if tools.len() > 0 {
        lemma_count_zero(tools.drop_last(), c);
        let init = tools.drop_last();
        lemma_category_bounds(init, c);
        if cat_count(tools, c) == 0 {
            assert forall|j: int| 0 <= j < tools.len() implies #[trigger] tools[j].category_id != c by {
                if j < tools.len() - 1 {
                    assert(init[j] == tools[j]);
                }
            }
        } else if forall|j: int| 0 <= j < tools.len() ==> #[trigger] tools[j].category_id != c {
            assert(tools[tools.len() - 1].category_id != c);
            assert forall|j: int| 0 <= j < init.len() implies #[trigger] init[j].category_id != c by {
                assert(init[j] == tools[j]);
            }
        }
    }
}

/// Entry of one category.
fn category_entry(tools: &Vec<Tool>, cat: &Category) -> (r: CategoryTools)
    requires
        all_valid(tools@),
    ensures
        r.category_id == cat.id,
        r.category_name == cat.name,
        category_summary_of(tools@, r),
{
    let c = cat.id;
    let (total, count, users) = category_totals(tools, c);
    let n = tools.len();
    proof {
        lemma_category_bounds(tools@, c);
        lemma_cost_sum_bound(tools@);
        lemma_count_zero(tools@, c);
        assert(n * MAX_MONTHLY_COST <= 0xFFFF_FFFF_FFFF_FFFF * MAX_MONTHLY_COST) by (nonlinear_arith)
            requires
                n <= 0xFFFF_FFFF_FFFF_FFFF,
        ;
        assert(n * 0xFFFF_FFFF <= 0xFFFF_FFFF_FFFF_FFFF * 0xFFFF_FFFF) by (nonlinear_arith)
            requires
                n <= 0xFFFF_FFFF_FFFF_FFFF,
        ;
    }
    let average = if count == 0 {
        0
    } else {
        div_round(total, count as u128)
    };
    let avg_users = if count == 0 {
        0
    } else {
        div_round(10 * users, count as u128)
    };
    let (most, least) = match category_extremes(tools, c) {
        Some((hi, lo)) => {
            assert(tools@[hi as int].name == tools@[hi as int].name);
            (Some(tools[hi].name.clone()), Some(tools[lo].name.clone()))
        },
        None => (None, None),
    };
    CategoryTools {
        category_id: c,
        category_name: cat.name.clone(),
        tool_count: count as u64,
        average_cost: average,
        total_cost: total,
        tools: category_tools_sorted(tools, c),
        insights: CategoryInsights { most_expensive: most, least_expensive: least, avg_users },
    }
}

pub open spec fn category_key(c: Category) -> (i32, Seq<char>) {
    (c.id, c.name@)
}

pub open spec fn entry_key(s: CategoryTools) -> (i32, Seq<char>) {
    (s.category_id, s.category_name@)
}

/// One entry per category, tools or not, by decreasing total cost.
pub fn get_tools_by_category(tools: &Vec<Tool>, categories: &Vec<Category>) -> (r: CategoryToolsResponse)
    requires
        all_valid(tools@),
    ensures
        rearranges(r.categories@.map_values(|s: CategoryTools| entry_key(s)), categories@.map_values(|c: Category| category_key(c))),
        forall|i: int| 0 <= i < r.categories@.len() ==> category_summary_of(tools@, #[trigger] r.categories@[i]),
        forall|i: int, j: int|
            0 <= i < j < r.categories@.len() ==> #[trigger] r.categories@[i].total_cost >= #[trigger] r.categories@[j].total_cost,
{
    let m = categories.len();
    let mut totals: Vec<u128> = Vec::new();
    let mut j: usize = 0;
    while j < m
        invariant
            m == categories@.len(),
            j <= m,
            all_valid(tools@),
            totals@.len() == j,
            forall|x: int| 0 <= x < j ==> #[trigger] totals@[x] == cat_cost(tools@, categories@[x].id),
        decreases m - j,
    {
        let (t, _count, _users) = category_totals(tools, categories[j].id);
        totals.push(t);
        j = j + 1;
    }
    let perm = order_desc(&totals);
    let mut out: Vec<CategoryTools> = Vec::new();
    let mut i: usize = 0;
    while i < m
        invariant
            m == categories@.len(),
            m == totals@.len(),
            all_valid(tools@),
            forall|x: int| 0 <= x < m ==> #[trigger] totals@[x] == cat_cost(tools@, categories@[x].id),
            is_desc_order(totals@, perm@),
            i <= m,
            out@.len() == i,
            forall|x: int| 0 <= x < i ==> #[trigger] entry_key(out@[x]) == category_key(categories@[perm@[x] as int]),
            forall|x: int| 0 <= x < i ==> category_summary_of(tools@, #[trigger] out@[x]),
        decreases m - i,
    {
        let p = perm[i];
        let entry = category_entry(tools, &categories[p]);
        out.push(entry);
        i = i + 1;
    }
    proof {
        let ks = out@.map_values(|s: CategoryTools| entry_key(s));
        let cs = categories@.map_values(|c: Category| category_key(c));
        assert forall|x: int| 0 <= x < ks.len() implies #[trigger] ks[x] == cs[perm@[x] as int] by {
            assert(entry_key(out@[x]) == category_key(categories@[perm@[x] as int]));
        }
        lemma_apply_order(cs, totals@, perm@, ks);
        assert forall|a: int, b: int| 0 <= a < b < out@.len() implies #[trigger] out@[a].total_cost
            >= #[trigger] out@[b].total_cost by {
            assert(before(totals@, perm@[a] as int, perm@[b] as int));
            assert(entry_key(out@[a]) == category_key(categories@[perm@[a] as int]));
            assert(entry_key(out@[b]) == category_key(categories@[perm@[b] as int]));
            assert(category_summary_of(tools@, out@[a]));
            assert(category_summary_of(tools@, out@[b]));
            assert(totals@[perm@[a] as int] == cat_cost(tools@, categories@[perm@[a] as int].id));
            assert(totals@[perm@[b] as int] == cat_cost(tools@, categories@[perm@[b] as int].id));
        }
    }
    CategoryToolsResponse { categories: out }
}

// ---------------------------------------------------------------- low usage

/// Severity of a tool's under-use.
#[derive(Clone, Copy, Debug, PartialEq, Eq, Structural)]
pub enum WarningLevel {
    Critical,
    High,
    Medium,
}

impl WarningLevel {
    pub open spec fn spec_name(self) -> Seq<char> {
        match self {
            WarningLevel::Critical => "critical"@,
            WarningLevel::High => "high"@,
            WarningLevel::Medium => "medium"@,
        }
    }

    pub fn as_str(&self) -> (r: &'static str)
        ensures
            r@ == self.spec_name(),
    {
        match self {
            WarningLevel::Critical => "critical",
            WarningLevel::High => "high",
            WarningLevel::Medium => "medium",
        }
    }
}

/// Nobody uses it: critical; fewer than half the threshold (rounded down): high.
pub open spec fn warning_level(users: int, threshold: int) -> WarningLevel {
    if users == 0 {
        WarningLevel::Critical
    } else if users < threshold / 2 {
        WarningLevel::High
    } else {
        WarningLevel::Medium
    }
}

/// A tool nobody uses is critical whatever the threshold; below the
/// threshold, one with fewer users than half of it is high, any other medium.
pub proof fn lemma_warning_levels(users: int, threshold: int)
    requires
        0 <= users < threshold,
    ensures
        warning_level(0, threshold) == WarningLevel::Critical,
        users > 0 && users < threshold / 2 ==> warning_level(users, threshold) == WarningLevel::High,
        users > 0 && users >= threshold / 2 ==> warning_level(users, threshold) == WarningLevel::Medium,
{
}

pub fn classify_usage(users: u32, threshold: i32) -> (r: WarningLevel)
    requires
        users < threshold,
    ensures
        r == warning_level(users as int, threshold as int),
{
    if users == 0 {
        WarningLevel::Critical
    } else if (users as i32) < threshold / 2 {
        WarningLevel::High
    } else {
        WarningLevel::Medium
    }
}

/// A tool used by fewer people than the threshold.
#[derive(Debug)]
pub struct LowUsageTool {
    pub id: i32,
    pub name: String,
    pub category: Option<String>,
    pub monthly_cost: u64,
    pub active_users_count: u32,
    pub efficiency_rating: u64,
    pub department: Department,
    pub warning_level: WarningLevel,
}

impl LowUsageTool {
    pub fn copy(&self) -> (r: LowUsageTool)
        ensures
            r == *self,
    {
        LowUsageTool {
            id: self.id,
            name: self.name.clone(),
            category: copy_opt(&self.category),
            monthly_cost: self.monthly_cost,
            active_users_count: self.active_users_count,
            efficiency_rating: self.efficiency_rating,
            department: self.department,
            warning_level: self.warning_level,
        }
    }
}

/// The low-usage report.
#[derive(Debug)]
pub struct LowUsageToolsResponse {
    pub threshold: i32,
    pub tools: Vec<LowUsageTool>,
    pub total_tools: usize,
    pub total_wasted_cost: u128,
}

pub open spec fn low_usage_row(t: Tool, threshold: int) -> LowUsageTool {
    LowUsageTool {
        id: t.id,
        name: t.name,
        category: t.category,
        monthly_cost: t.monthly_cost,
        active_users_count: t.active_users_count,
        efficiency_rating: efficiency(t.monthly_cost as int, t.active_users_count as int) as u64,
        department: t.owner_department,
        warning_level: warning_level(t.active_users_count as int, threshold),
    }
}

/// Rows of the tools below the threshold, in the order of `tools`.
pub open spec fn low_usage_rows(tools: Seq<Tool>, threshold: int) -> Seq<LowUsageTool>
    decreases tools.len(),
{
    if tools.len() == 0 {
        Seq::empty()
    } else {
        let rest = low_usage_rows(tools.drop_last(), threshold);
        if tools.last().active_users_count < threshold {
            rest.push(low_usage_row(tools.last(), threshold))
        } else {
            rest
        }
    }
}

/// Sum of the costs of the tools below the threshold.
pub open spec fn wasted_cost(tools: Seq<Tool>, threshold: int) -> int
    decreases tools.len(),
{
    if tools.len() == 0 {
        0
    } else {
        let rest = wasted_cost(tools.drop_last(), threshold);
        if tools.last().active_users_count < threshold {
            rest + tools.last().monthly_cost
        } else {
            rest
        }
    }
}

/// Sort key of a low-usage row: fewer users first, then the higher cost.
pub open spec fn low_usage_key(users: int, cost: int) -> int {
    (0xFFFF_FFFF - users) * 0x1_0000_0000_0000_0000 + cost
}

proof fn lemma_low_usage_key(ua: int, ca: int, ub: int, cb: int)
    requires
        0 <= ua <= 0xFFFF_FFFF,
        0 <= ub <= 0xFFFF_FFFF,
        0 <= ca < 0x1_0000_0000_0000_0000,
        0 <= cb < 0x1_0000_0000_0000_0000,
        low_usage_key(ua, ca) >= low_usage_key(ub, cb),
    ensures
        ua < ub || (ua == ub && ca >= cb),
{
    if ua > ub {
        assert((0xFFFF_FFFF - ua) * 0x1_0000_0000_0000_0000 + 0x1_0000_0000_0000_0000 <= (0xFFFF_FFFF - ub)
            * 0x1_0000_0000_0000_0000) by (nonlinear_arith)
            requires
                ua > ub,
        ;
    }
}

/// Tools used by fewer than `threshold` people, fewest users first and, among
/// equals, the most expensive first.
pub fn get_low_usage_tools(tools: &Vec<Tool>, threshold: i32) -> (r: LowUsageToolsResponse)
    ensures
        r.threshold == threshold,
        r.total_tools == r.tools@.len(),
        r.total_wasted_cost == wasted_cost(tools@, threshold as int),
        rearranges(r.tools@, low_usage_rows(tools@, threshold as int)),
        forall|i: int, j: int|
            0 <= i < j < r.tools@.len() ==> {
                let a = #[trigger] r.tools@[i];
                let b = #[trigger] r.tools@[j];
                a.active_users_count < b.active_users_count || (a.active_users_count
                    == b.active_users_count && a.monthly_cost >= b.monthly_cost)
            },
{
    let n = tools.len();
    let mut rows: Vec<LowUsageTool> = Vec::new();
    let mut keys: Vec<u128> = Vec::new();
    let mut wasted: u128 = 0;
    let mut k: usize = 0;
    while k < n
        invariant
            n == tools@.len(),
            k <= n,
            rows@ == low_usage_rows(tools@.subrange(0, k as int), threshold as int),
            wasted == wasted_cost(tools@.subrange(0, k as int), threshold as int),
            keys@.len() == rows@.len(),
            forall|j: int| 0 <= j < rows@.len() ==> #[trigger] keys@[j] == low_usage_key(
                rows@[j].active_users_count as int,
                rows@[j].monthly_cost as int,
            ),
            wasted <= k * 0xFFFF_FFFF_FFFF_FFFF,
        decreases n - k,
    {
        let t = &tools[k];
        assert(tools@.subrange(0, k + 1).drop_last() =~= tools@.subrange(0, k as int));
        assert(tools@.subrange(0, k + 1).last() == tools@[k as int]);
        if (t.active_users_count as i64) < (threshold as i64) {
            let users = t.active_users_count;
            let row = LowUsageTool {
                id: t.id,
                name: t.name.clone(),
                category: copy_opt(&t.category),
                monthly_cost: t.monthly_cost,
                active_users_count: users,
                efficiency_rating: efficiency_rating(t.monthly_cost, users),
                department: t.owner_department,
                warning_level: classify_usage(users, threshold),
            };
            let key: u128 = (0xFFFF_FFFFu128 - users as u128) * 0x1_0000_0000_0000_0000u128
                + t.monthly_cost as u128;
            rows.push(row);
            keys.push(key);
            assert(wasted + t.monthly_cost <= (k + 1) * 0xFFFF_FFFF_FFFF_FFFF) by (nonlinear_arith)
                requires
                    wasted <= k * 0xFFFF_FFFF_FFFF_FFFF,
                    t.monthly_cost <= 0xFFFF_FFFF_FFFF_FFFF,
            ;
            assert(k * 0xFFFF_FFFF_FFFF_FFFF <= 0xFFFF_FFFF_FFFF_FFFF * 0xFFFF_FFFF_FFFF_FFFF)
                by (nonlinear_arith)
                requires
                    k <= 0xFFFF_FFFF_FFFF_FFFF,
            ;
            wasted = wasted + t.monthly_cost as u128;
        } else {
            assert(wasted <= (k + 1) * 0xFFFF_FFFF_FFFF_FFFF) by (nonlinear_arith)
                requires
                    wasted <= k * 0xFFFF_FFFF_FFFF_FFFF,
            ;
        }
        k = k + 1;
    }
    assert(tools@.subrange(0, n as int) =~= tools@);
    let perm = order_desc(&keys);
    let mut out: Vec<LowUsageTool> = Vec::new();
    let mut i: usize = 0;
    while i < perm.len()
        invariant
            is_desc_order(keys@, perm@),
            keys@.len() == rows@.len(),
            i <= perm@.len(),
            out@.len() == i,
            forall|m: int| 0 <= m < i ==> #[trigger] out@[m] == rows@[perm@[m] as int],
        decreases perm@.len() - i,
    {
        out.push(rows[perm[i]].copy());
        i = i + 1;
    }
    proof {
        lemma_apply_order(rows@, keys@, perm@, out@);
        assert forall|i: int, j: int| 0 <= i < j < out@.len() implies {
            let a = #[trigger] out@[i];
            let b = #[trigger] out@[j];
            a.active_users_count < b.active_users_count || (a.active_users_count
                == b.active_users_count && a.monthly_cost >= b.monthly_cost)
        } by {
            assert(keys@[perm@[i] as int] >= keys@[perm@[j] as int]);
            lemma_low_usage_key(
                out@[i].active_users_count as int,
                out@[i].monthly_cost as int,
                out@[j].active_users_count as int,
                out@[j].monthly_cost as int,
            );
        }
    }
    let total_tools = out.len();
    LowUsageToolsResponse { threshold, tools: out, total_tools, total_wasted_cost: wasted }
}

} // verus!
