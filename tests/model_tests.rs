use internal_tools_api::analytics::{
    classify_usage, efficiency_rating, get_department_costs, get_expensive_tools,
    get_low_usage_tools, get_tools_by_category, get_vendor_summary, CategoryInsights,
    CategoryToolsResponse, DepartmentCost, ExpensiveToolsQuery, LowUsageQuery, VendorSummary,
    VendorSummaryResponse, VendorTool, WarningLevel,
};
use internal_tools_api::errors::{ApiError, ValidationFault};
use internal_tools_api::model::{Category, Department, MessageResponse, ToolStatus};
use internal_tools_api::store::{
    CreateToolRequest, ToolTable, ToolsListResponse, ToolsQuery, UpdateOutcome, UpdateToolRequest,
};

fn categories() -> Vec<Category> {
    vec![
        Category { id: 1, name: "Communication".to_string() },
        Category { id: 2, name: "Development".to_string() },
        Category { id: 3, name: "Design".to_string() },
    ]
}

fn request(name: &str, vendor: &str, category_id: i32, cost: i64, users: i32, dept: &str) -> CreateToolRequest {
    CreateToolRequest {
        name: name.to_string(),
        description: format!("{} description", name),
        vendor: vendor.to_string(),
        website_url: None,
        category_id,
        monthly_cost: cost,
        active_users_count: Some(users),
        owner_department: Some(dept.to_string()),
        status: None,
    }
}

fn empty_update() -> UpdateToolRequest {
    UpdateToolRequest {
        name: None,
        description: None,
        vendor: None,
        website_url: None,
        category_id: None,
        monthly_cost: None,
        active_users_count: None,
        owner_department: None,
        status: None,
    }
}

fn query() -> ToolsQuery {
    ToolsQuery { status: None, category_id: None, vendor: None, search: None, limit: None, skip: None }
}

fn sample_table() -> ToolTable {
    let mut t = ToolTable::new(categories());
    t.create_tool(&request("Slack", "Slack Technologies", 1, 800, 25, "Engineering"), 100).unwrap();
    t.create_tool(&request("Jira", "Atlassian", 2, 2000, 12, "Engineering"), 101).unwrap();
    t.create_tool(&request("Confluence", "Atlassian", 2, 1500, 4, "Operations"), 102).unwrap();
    t.create_tool(&request("Figma", "Figma Inc", 3, 4500, 0, "Design"), 103).unwrap();
    t.create_tool(&request("Notion", "Notion Labs", 1, 1000, 6, "Marketing"), 104).unwrap();
    t
}

fn all_rows(t: &ToolTable) -> Vec<internal_tools_api::model::Tool> {
    let mut q = query();
    q.limit = Some(1000);
    t.get_tools(&q.to_filter().unwrap()).data
}

#[test]
fn test_tools_list_response() {
    let response = ToolsListResponse { data: vec![], total: 100, filtered: 0 };
    assert_eq!(response.total, 100);
    assert_eq!(response.filtered, 0);
    assert!(response.data.is_empty());
}

#[test]
fn test_department_cost() {
    let dept_cost = DepartmentCost {
        department: Department::Engineering,
        total_cost: 150050,
        tool_count: 10,
        percentage: 455,
    };
    assert_eq!(dept_cost.department.as_str(), "Engineering");
    assert_eq!(dept_cost.total_cost, 150050);
    assert_eq!(dept_cost.percentage, 455);
}

#[test]
fn test_low_usage_warning_levels() {
    let critical = classify_usage(0, 10);
    assert_eq!(critical.as_str(), "critical");
    let high = classify_usage(3, 10);
    assert_eq!(high.as_str(), "high");
}

#[test]
fn test_vendor_summary() {
    let vendor = VendorSummary {
        vendor: "Atlassian".to_string(),
        tool_count: 3,
        total_cost: 5000,
        average_cost: 1667,
        departments: "Engineering, Operations".to_string(),
        tools: vec![
            VendorTool { name: "Jira".to_string(), monthly_cost: 2000, department: Department::Engineering },
            VendorTool { name: "Confluence".to_string(), monthly_cost: 1500, department: Department::Engineering },
        ],
    };
    assert_eq!(vendor.tool_count, 3);
    assert_eq!(vendor.tools.len(), 2);
    assert!(vendor.departments.contains("Engineering"));
}

#[test]
fn test_category_insights() {
    let insights = CategoryInsights {
        most_expensive: Some("Adobe CC".to_string()),
        least_expensive: Some("Slack".to_string()),
        avg_users: 255,
    };
    assert!(insights.most_expensive.is_some());
    assert!(insights.least_expensive.is_some());
    assert!(insights.avg_users > 0);

    let empty_insights = CategoryInsights { most_expensive: None, least_expensive: None, avg_users: 0 };
    assert!(empty_insights.most_expensive.is_none());
    assert_eq!(empty_insights.avg_users, 0);
}

#[test]
fn test_message_response() {
    let msg = MessageResponse { message: "Tool deleted successfully".to_string() };
    assert!(msg.message.contains("deleted successfully"));
}

#[test]
fn test_valid_departments() {
    let valid_departments = vec!["Engineering", "Sales", "Marketing", "HR", "Finance", "Operations", "Design"];
    let mut table = ToolTable::new(categories());
    for dept in valid_departments {
        let tool = table.create_tool(&request("Test", "Test", 1, 1000, 0, dept), 1).unwrap();
        assert_eq!(tool.owner_department.as_str(), dept);
    }
}

#[test]
fn test_valid_statuses() {
    let valid_statuses = vec!["active", "deprecated", "trial"];
    let mut table = ToolTable::new(categories());
    for status in valid_statuses {
        let mut req = request("Test", "Test", 1, 1000, 0, "Engineering");
        req.status = Some(status.to_string());
        let tool = table.create_tool(&req, 1).unwrap();
        assert_eq!(tool.status.as_str(), status);
    }
}

#[test]
fn test_monthly_cost_validation() {
    let mut table = ToolTable::new(categories());
    let valid_cost = table.create_tool(&request("Test", "Test", 1, 0, 0, "Engineering"), 1).unwrap();
    assert!(valid_cost.monthly_cost == 0);
    let paid_cost = table.create_tool(&request("Test", "Test", 1, 9999, 0, "Engineering"), 2).unwrap();
    assert!(paid_cost.monthly_cost > 0);
    let negative = table.create_tool(&request("Test", "Test", 1, -1, 0, "Engineering"), 3);
    assert_eq!(negative.unwrap_err(), ApiError::Validation(ValidationFault::NegativeCost));
}

#[test]
fn test_large_tool_list() {
    let mut table = ToolTable::new(categories());
    for i in 0..1000 {
        let req = request(&format!("Tool {}", i), &format!("Vendor {}", i), 1, (i as i64) * 99, i % 100, "Engineering");
        table.create_tool(&req, i as i64).unwrap();
    }
    let mut q = query();
    q.limit = Some(1000);
    let page = table.get_tools(&q.to_filter().unwrap());
    assert_eq!(page.data.len(), 1000);
    assert_eq!(page.total, 1000);
}

#[test]
fn test_empty_responses() {
    let table = ToolTable::new(categories());
    let page = table.get_tools(&query().to_filter().unwrap());
    assert_eq!(page.data.len(), 0);

    let empty_vendors = VendorSummaryResponse { vendors: vec![] };
    assert_eq!(empty_vendors.vendors.len(), 0);

    let empty_categories = CategoryToolsResponse { categories: vec![] };
    assert_eq!(empty_categories.categories.len(), 0);
}

#[test]
fn test_unicode_handling() {
    let mut table = ToolTable::new(categories());
    let mut req = request("测试工具 🚀", "Société française", 1, 1000, 5, "Engineering");
    req.description = "Descripción en español".to_string();
    let created = table.create_tool(&req, 1).unwrap();
    let fetched = table.get_tool(created.id).unwrap();
    assert_eq!(fetched.name, "测试工具 🚀");
    assert_eq!(fetched.vendor, Some("Société française".to_string()));
}

#[test]
fn create_assigns_positive_unique_ids_and_equal_stamps() {
    let mut table = ToolTable::new(categories());
    let a = table.create_tool(&request("Alpha", "A", 1, 100, 1, "Sales"), 50).unwrap();
    let b = table.create_tool(&request("Beta", "B", 1, 100, 1, "Sales"), 50).unwrap();
    assert!(a.id > 0 && b.id > 0);
    assert_ne!(a.id, b.id);
    assert_eq!(a.created_at, a.updated_at);
    assert_eq!(b.created_at, b.updated_at);
    assert!(b.created_at > a.created_at);
}

#[test]
fn create_applies_defaults_and_resolves_category() {
    let mut table = ToolTable::new(categories());
    let mut req = request("Gamma", "G", 2, 100, 0, "Sales");
    req.active_users_count = None;
    req.owner_department = None;
    let t = table.create_tool(&req, 7).unwrap();
    assert_eq!(t.active_users_count, 0);
    assert_eq!(t.status, ToolStatus::Active);
    assert_eq!(t.owner_department, Department::Engineering);
    assert_eq!(t.category, Some("Development".to_string()));
    let orphan = table.create_tool(&request("Delta", "D", 99, 100, 0, "Sales"), 8).unwrap();
    assert_eq!(orphan.category, None);
}

#[test]
fn create_rejects_each_invalid_field() {
    let mut table = ToolTable::new(categories());
    let short = table.create_tool(&request("X", "V", 1, 100, 0, "Sales"), 1);
    assert_eq!(short.unwrap_err(), ApiError::Validation(ValidationFault::NameLength));
    let big = table.create_tool(&request("Xy", "V", 1, 10_000_000_000, 0, "Sales"), 1);
    assert_eq!(big.unwrap_err(), ApiError::Validation(ValidationFault::CostTooLarge));
    let users = table.create_tool(&request("Xy", "V", 1, 100, -3, "Sales"), 1);
    assert_eq!(users.unwrap_err(), ApiError::Validation(ValidationFault::NegativeUsers));
    let dept = table.create_tool(&request("Xy", "V", 1, 100, 0, "Legal"), 1);
    assert_eq!(dept.unwrap_err(), ApiError::Validation(ValidationFault::UnknownDepartment));
    let mut req = request("Xy", "V", 1, 100, 0, "Sales");
    req.status = Some("retired".to_string());
    assert_eq!(table.create_tool(&req, 1).unwrap_err(), ApiError::Validation(ValidationFault::UnknownStatus));
    assert_eq!(all_rows(&table).len(), 0);
}

#[test]
fn update_bumps_timestamp_only_when_fields_given() {
    let mut table = sample_table();
    let before = table.get_tool(2).unwrap();
    assert_eq!(table.update_tool(2, &empty_update(), 500), Ok(UpdateOutcome::NoFieldsToUpdate));
    assert_eq!(UpdateOutcome::NoFieldsToUpdate.message(), "No fields to update");
    assert_eq!(table.get_tool(2).unwrap().updated_at, before.updated_at);

    let mut req = empty_update();
    req.monthly_cost = Some(2999);
    req.name = Some("Jira Cloud".to_string());
    assert_eq!(table.update_tool(2, &req, 10), Ok(UpdateOutcome::Updated));
    let after = table.get_tool(2).unwrap();
    assert!(after.updated_at > before.updated_at);
    assert_eq!(after.created_at, before.created_at);
    assert_eq!(after.name, "Jira Cloud");
    assert_eq!(after.monthly_cost, 2999);
    assert_eq!(after.vendor, before.vendor);
}

#[test]
fn update_missing_or_invalid() {
    let mut table = sample_table();
    assert_eq!(table.update_tool(99, &empty_update(), 1), Err(ApiError::NotFound { id: 99 }));
    let mut req = empty_update();
    req.owner_department = Some("Legal".to_string());
    assert_eq!(table.update_tool(1, &req, 1), Err(ApiError::Validation(ValidationFault::UnknownDepartment)));
    let mut req = empty_update();
    req.category_id = Some(3);
    assert_eq!(table.update_tool(1, &req, 1000), Ok(UpdateOutcome::Updated));
    assert_eq!(table.get_tool(1).unwrap().category, Some("Design".to_string()));
}

#[test]
fn list_filters_are_conjunctive() {
    let table = sample_table();
    let mut q = query();
    q.category_id = Some(2);
    q.status = Some("active".to_string());
    let page = table.get_tools(&q.to_filter().unwrap());
    assert_eq!(page.total, 2);
    assert!(page.data.iter().all(|t| t.category_id == 2 && t.status == ToolStatus::Active));

    let mut q = query();
    q.vendor = Some("ATLASS".to_string());
    q.search = Some("conf".to_string());
    let page = table.get_tools(&q.to_filter().unwrap());
    assert_eq!(page.total, 1);
    assert_eq!(page.data[0].name, "Confluence");
}

#[test]
fn list_total_ignores_paging_and_pages_by_id() {
    let table = sample_table();
    let mut q = query();
    q.limit = Some(2);
    q.skip = Some(1);
    let page = table.get_tools(&q.to_filter().unwrap());
    assert_eq!(page.total, 5);
    let ids: Vec<i32> = page.data.iter().map(|t| t.id).collect();
    assert_eq!(ids, vec![2, 3]);

    q.skip = Some(4);
    assert_eq!(table.get_tools(&q.to_filter().unwrap()).data.len(), 1);
    q.skip = Some(9);
    let past = table.get_tools(&q.to_filter().unwrap());
    assert_eq!(past.data.len(), 0);
    assert_eq!(past.total, 5);
}

#[test]
fn list_query_errors() {
    let mut q = query();
    q.status = Some("gone".to_string());
    assert_eq!(q.to_filter().err(), Some(ApiError::Validation(ValidationFault::UnknownStatus)));
    let mut q = query();
    q.limit = Some(-1);
    assert_eq!(q.to_filter().err(), Some(ApiError::Validation(ValidationFault::NegativeLimit)));
    let mut q = query();
    q.skip = Some(-1);
    assert_eq!(q.to_filter().err(), Some(ApiError::Validation(ValidationFault::NegativeSkip)));
    let f = query().to_filter().unwrap();
    assert_eq!(f.limit, 50);
    assert_eq!(f.skip, 0);
}

#[test]
fn delete_twice_is_not_found() {
    let mut table = sample_table();
    assert_eq!(table.delete_tool(3), Ok(()));
    assert_eq!(table.delete_tool(3), Err(ApiError::NotFound { id: 3 }));
    assert_eq!(table.delete_tool(42), Err(ApiError::NotFound { id: 42 }));
    assert_eq!(table.get_tool(3).unwrap_err(), ApiError::NotFound { id: 3 });
}

#[test]
fn error_statuses() {
    assert_eq!(ApiError::NotFound { id: 1 }.status_code(), 404);
    assert_eq!(ApiError::Validation(ValidationFault::NameLength).status_code(), 400);
    assert_eq!(ApiError::StorageUnavailable("down".to_string()).status_code(), 500);
    assert_eq!(ApiError::QueryFailure("bad".to_string()).status_code(), 500);
}

#[test]
fn department_costs_shares() {
    let table = sample_table();
    let report = get_department_costs(&all_rows(&table));
    assert_eq!(report.total_cost, 9800);
    let names: Vec<&str> = report.departments.iter().map(|d| d.department.as_str()).collect();
    assert_eq!(names, vec!["Design", "Engineering", "Operations", "Marketing"]);
    let eng = &report.departments[1];
    assert_eq!(eng.total_cost, 2800);
    assert_eq!(eng.tool_count, 2);
    assert_eq!(eng.percentage, 286);
    let sum: u128 = report.departments.iter().map(|d| d.percentage).sum();
    assert!(sum >= 999 && sum <= 1001);
}

#[test]
fn expensive_tools_limited_and_ordered() {
    let table = sample_table();
    let report = get_expensive_tools(&all_rows(&table), 3);
    let names: Vec<&str> = report.tools.iter().map(|t| t.name.as_str()).collect();
    assert_eq!(names, vec!["Figma", "Jira", "Confluence"]);
    assert_eq!(report.tools[0].efficiency_rating, 4500);
    assert_eq!(report.tools[1].efficiency_rating, 167);
    assert_eq!(efficiency_rating(7999, 5), 1600);
    assert_eq!(ExpensiveToolsQuery { limit: None }.limit_or_default(), Ok(10));
    assert_eq!(
        ExpensiveToolsQuery { limit: Some(-2) }.limit_or_default(),
        Err(ApiError::Validation(ValidationFault::NegativeLimit))
    );
}

#[test]
fn low_usage_classification() {
    let table = sample_table();
    let threshold = LowUsageQuery { threshold: None }.threshold_or_default();
    assert_eq!(threshold, 10);
    let report = get_low_usage_tools(&all_rows(&table), threshold);
    let names: Vec<&str> = report.tools.iter().map(|t| t.name.as_str()).collect();
    assert_eq!(names, vec!["Figma", "Confluence", "Notion"]);
    assert_eq!(report.tools[0].warning_level, WarningLevel::Critical);
    assert_eq!(report.tools[1].warning_level, WarningLevel::High);
    assert_eq!(report.tools[2].warning_level, WarningLevel::Medium);
    assert_eq!(report.total_tools, 3);
    assert_eq!(report.total_wasted_cost, 7000);
    assert_eq!(classify_usage(4, 10), WarningLevel::High);
    assert_eq!(classify_usage(6, 10), WarningLevel::Medium);
}

#[test]
fn zoom_end_to_end() {
    let mut table = ToolTable::new(categories());
    let zoom = table.create_tool(&request("Zoom", "Zoom Inc", 1, 1499, 0, "Engineering"), 1).unwrap();
    let report = get_low_usage_tools(&all_rows(&table), 10);
    assert_eq!(report.tools.len(), 1);
    assert_eq!(report.tools[0].id, zoom.id);
    assert_eq!(report.tools[0].warning_level.as_str(), "critical");
    assert_eq!(report.tools[0].efficiency_rating, 1499);
    assert_eq!(report.total_wasted_cost, 1499);
}

#[test]
fn vendor_summary_groups_and_skips_missing_vendor() {
    let mut table = sample_table();
    let mut req = empty_update();
    req.vendor = Some("Atlassian".to_string());
    table.update_tool(5, &req, 1000).unwrap();
    let mut rows = all_rows(&table);
    let mut orphan = rows[0].copy();
    orphan.id = 77;
    orphan.vendor = None;
    rows.push(orphan);
    let report = get_vendor_summary(&rows);
    assert_eq!(report.vendors.len(), 3);
    let atl = &report.vendors[0];
    assert_eq!(atl.vendor, "Atlassian");
    assert_eq!(atl.tool_count, 3);
    assert_eq!(atl.total_cost, 4500);
    assert_eq!(atl.average_cost, 1500);
    assert_eq!(atl.departments, "Engineering, Marketing, Operations");
    let names: Vec<&str> = atl.tools.iter().map(|t| t.name.as_str()).collect();
    assert_eq!(names, vec!["Jira", "Confluence", "Notion"]);
    let total_tools: u64 = report.vendors.iter().map(|v| v.tool_count).sum();
    assert_eq!(total_tools, 5);
}

#[test]
fn tools_by_category_insights() {
    let mut cats = categories();
    cats.push(Category { id: 4, name: "Empty".to_string() });
    let table = sample_table();
    let report = get_tools_by_category(&all_rows(&table), &cats);
    let ids: Vec<i32> = report.categories.iter().map(|c| c.category_id).collect();
    assert_eq!(ids, vec![3, 2, 1, 4]);
    let dev = &report.categories[1];
    assert_eq!(dev.tool_count, 2);
    assert_eq!(dev.total_cost, 3500);
    assert_eq!(dev.average_cost, 1750);
    assert_eq!(dev.insights.most_expensive, Some("Jira".to_string()));
    assert_eq!(dev.insights.least_expensive, Some("Confluence".to_string()));
    assert_eq!(dev.insights.avg_users, 80);
    let empty = &report.categories[3];
    assert_eq!(empty.tool_count, 0);
    assert_eq!(empty.insights.most_expensive, None);
    assert_eq!(empty.insights.avg_users, 0);
}
