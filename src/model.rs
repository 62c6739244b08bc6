//! Tool records, the closed vocabularies they use, and response shapes.

use vstd::prelude::*;

verus! {

/// Largest monthly cost a tool may carry, in cents (a `NUMERIC(10,2)` column).
pub const MAX_MONTHLY_COST: u64 = 9_999_999_999;

/// Owning department; variants are listed in alphabetical order of their names.
#[derive(Clone, Copy, Debug, PartialEq, Eq, Structural)]
pub enum Department {
    Design,
    Engineering,
    Finance,
    HR,
    Marketing,
    Operations,
    Sales,
}

/// Lifecycle status of a tool.
#[derive(Clone, Copy, Debug, PartialEq, Eq, Structural)]
pub enum ToolStatus {
    Active,
    Deprecated,
    Trial,
}

/// Whether two string slices hold the same characters.
pub fn same_text(a: &str, b: &str) -> (r: bool)
    ensures
        r == (a@ == b@),
{
    let n = a.unicode_len();
    if n != b.unicode_len() {
        return false;
    }
    let mut i: usize = 0;
    while i < n
        invariant
            n == a@.len(),
            n == b@.len(),
            i <= n,
            forall|k: int| 0 <= k < i ==> a@[k] == b@[k],
        decreases n - i,
    {
        if a.get_char(i) != b.get_char(i) {
            return false;
        }
        i = i + 1;
    }
    assert(a@ =~= b@);
    true
}

impl Department {
    pub open spec fn spec_name(self) -> Seq<char> {
        match self {
            Department::Design => "Design"@,
            Department::Engineering => "Engineering"@,
            Department::Finance => "Finance"@,
            Department::HR => "HR"@,
            Department::Marketing => "Marketing"@,
            Department::Operations => "Operations"@,
            Department::Sales => "Sales"@,
        }
    }

    /// Position in alphabetical order of the names.
    pub open spec fn rank(self) -> nat {
        match self {
            Department::Design => 0,
            Department::Engineering => 1,
            Department::Finance => 2,
            Department::HR => 3,
            Department::Marketing => 4,
            Department::Operations => 5,
            Department::Sales => 6,
        }
    }

    pub open spec fn from_rank(r: nat) -> Department {
        if r == 0 {
            Department::Design
        } else if r == 1 {
            Department::Engineering
        } else if r == 2 {
            Department::Finance
        } else if r == 3 {
            Department::HR
        } else if r == 4 {
            Department::Marketing
        } else if r == 5 {
            Department::Operations
        } else {
            Department::Sales
        }
    }

    pub fn as_str(&self) -> (r: &'static str)
        ensures
            r@ == self.spec_name(),
    {
        match self {
            Department::Design => "Design",
            Department::Engineering => "Engineering",
            Department::Finance => "Finance",
            Department::HR => "HR",
            Department::Marketing => "Marketing",
            Department::Operations => "Operations",
            Department::Sales => "Sales",
        }
    }

    pub fn at_position(r: usize) -> (d: Department)
        requires
            r < 7,
        ensures
            d.rank() == r,
            d == Department::from_rank(r as nat),
    {
        if r == 0 {
            Department::Design
        } else if r == 1 {
            Department::Engineering
        } else if r == 2 {
            Department::Finance
        } else if r == 3 {
            Department::HR
        } else if r == 4 {
            Department::Marketing
        } else if r == 5 {
            Department::Operations
        } else {
            Department::Sales
        }
    }

    /// The department whose name is exactly `s`, if any.
    pub fn parse(s: &str) -> (r: Option<Department>)
        ensures
            r matches Some(d) ==> d.spec_name() == s@,
            r is None ==> forall|d: Department| d.spec_name() != s@,
    {
        if same_text(s, "Design") {
            Some(Department::Design)
        } else if same_text(s, "Engineering") {
            Some(Department::Engineering)
        } else if same_text(s, "Finance") {
            Some(Department::Finance)
        } else if same_text(s, "HR") {
            Some(Department::HR)
        } else if same_text(s, "Marketing") {
            Some(Department::Marketing)
        } else if same_text(s, "Operations") {
            Some(Department::Operations)
        } else if same_text(s, "Sales") {
            Some(Department::Sales)
        } else {
            None
        }
    }
}

impl ToolStatus {
    pub open spec fn spec_name(self) -> Seq<char> {
        match self {
            ToolStatus::Active => "active"@,
            ToolStatus::Deprecated => "deprecated"@,
            ToolStatus::Trial => "trial"@,
        }
    }

    pub fn as_str(&self) -> (r: &'static str)
        ensures
            r@ == self.spec_name(),
    {
        match self {
            ToolStatus::Active => "active",
            ToolStatus::Deprecated => "deprecated",
            ToolStatus::Trial => "trial",
        }
    }

    /// The status whose name is exactly `s`, if any.
    pub fn parse(s: &str) -> (r: Option<ToolStatus>)
        ensures
            r matches Some(st) ==> st.spec_name() == s@,
            r is None ==> forall|st: ToolStatus| st.spec_name() != s@,
    {
        if same_text(s, "active") {
            Some(ToolStatus::Active)
        } else if same_text(s, "deprecated") {
            Some(ToolStatus::Deprecated)
        } else if same_text(s, "trial") {
            Some(ToolStatus::Trial)
        } else {
            None
        }
    }
}

/// Copy of an optional string, equal to it.
pub fn copy_opt(s: &Option<String>) -> (r: Option<String>)
    ensures
        r == *s,
{
    match s {
        Some(v) => Some(v.clone()),
        None => None,
    }
}

/// A category of tools (read-only lookup data).
#[derive(Debug)]
pub struct Category {
    pub id: i32,
    pub name: String,
}

/// A software tool as stored; `category` is the name resolved from `category_id`.
#[derive(Debug)]
pub struct Tool {
    pub id: i32,
    pub name: String,
    pub description: Option<String>,
    pub vendor: Option<String>,
    pub website_url: Option<String>,
    pub category_id: i32,
    /// Monthly cost in cents.
    pub monthly_cost: u64,
    pub active_users_count: u32,
    pub owner_department: Department,
    pub status: ToolStatus,
    /// Creation time, in seconds since the epoch.
    pub created_at: i64,
    /// Time of the last change, in seconds since the epoch.
    pub updated_at: i64,
    pub category: Option<String>,
}

impl Tool {
    /// The cost fits the storage column.
    pub open spec fn valid(&self) -> bool {
        self.monthly_cost <= MAX_MONTHLY_COST
    }

    pub fn copy(&self) -> (r: Tool)
        ensures
            r == *self,
    {
        Tool {
            id: self.id,
            name: self.name.clone(),
            description: copy_opt(&self.description),
            vendor: copy_opt(&self.vendor),
            website_url: copy_opt(&self.website_url),
            category_id: self.category_id,
            monthly_cost: self.monthly_cost,
            active_users_count: self.active_users_count,
            owner_department: self.owner_department,
            status: self.status,
            created_at: self.created_at,
            updated_at: self.updated_at,
            category: copy_opt(&self.category),
        }
    }
}

/// Every tool of the sequence is valid.
pub open spec fn all_valid(tools: Seq<Tool>) -> bool {
    forall|i: int| 0 <= i < tools.len() ==> #[trigger] tools[i].valid()
}

/// Body of an error reply: a short category and a detail message.
#[derive(Debug)]
pub struct ErrorResponse {
    pub error: String,
    pub message: String,
}

/// Body of a reply that carries only a message.
#[derive(Debug)]
pub struct MessageResponse {
    pub message: String,
}

} // verus!
