use parseable::plan::{
    final_logical_plan, table_contains_any_time_filters, transform, Aggregate, Explain, Expr, Filter,
    LogicalPlan, Operator, Projection, TableScan,
};

fn scan(name: &str, filters: Vec<Expr>) -> LogicalPlan {
    LogicalPlan::TableScan(TableScan { table_name: name.to_string(), filters })
}

fn column(name: &str) -> Box<Expr> {
    Box::new(Expr::Column(name.to_string()))
}

fn count_plan(e: Expr) -> LogicalPlan {
    LogicalPlan::Projection(Projection {
        input: Box::new(LogicalPlan::Aggregate(Aggregate { input: Box::new(scan("app", vec![])) })),
        expr: vec![e],
    })
}

fn range(col: &str, lo: i64, hi: i64) -> Expr {
    Expr::BinaryExpr(
        Box::new(Expr::BinaryExpr(column(col), Operator::GtEq, Box::new(Expr::Timestamp(lo)))),
        Operator::And,
        Box::new(Expr::BinaryExpr(column(col), Operator::Lt, Box::new(Expr::Timestamp(hi)))),
    )
}

#[test]
fn first_table_in_visit_order() {
    let plan = LogicalPlan::Other(vec![
        LogicalPlan::Other(vec![]),
        LogicalPlan::Filter(Filter { predicate: Expr::Other, input: Box::new(scan("first", vec![])) }),
        scan("second", vec![]),
    ]);
    assert_eq!(plan.first_table_name(), Some("first".to_string()));
    assert_eq!(LogicalPlan::Other(vec![]).first_table_name(), None);
}

#[test]
fn time_filter_detection() {
    let t = TableScan {
        table_name: "app".to_string(),
        filters: vec![Expr::BinaryExpr(column("p_timestamp"), Operator::Gt, Box::new(Expr::Timestamp(1)))],
    };
    assert!(table_contains_any_time_filters(&t, &None));
    assert!(!table_contains_any_time_filters(&t, &Some("ts".to_string())));
}

#[test]
fn scans_get_time_range_filter() {
    let plan = LogicalPlan::Explain(Explain {
        verbose: false,
        plan: Box::new(LogicalPlan::Other(vec![
            scan("a", vec![]),
            scan("b", vec![Expr::BinaryExpr(column("ts"), Operator::Lt, Box::new(Expr::Timestamp(9)))]),
        ])),
    });
    let out = final_logical_plan(plan, &Some("ts".to_string()), 10, 20);
    let expected = LogicalPlan::Explain(Explain {
        verbose: false,
        plan: Box::new(LogicalPlan::Other(vec![
            LogicalPlan::Filter(Filter { predicate: range("ts", 10, 20), input: Box::new(scan("a", vec![])) }),
            scan("b", vec![Expr::BinaryExpr(column("ts"), Operator::Lt, Box::new(Expr::Timestamp(9)))]),
        ])),
    });
    assert_eq!(out, expected);
    let out = transform(scan("c", vec![]), &"p_timestamp".to_string(), 1, 2);
    assert_eq!(
        out,
        LogicalPlan::Filter(Filter { predicate: range("p_timestamp", 1, 2), input: Box::new(scan("c", vec![])) })
    );
}

#[test]
fn bare_count_detection() {
    assert_eq!(count_plan(Expr::Column("COUNT(*)".to_string())).is_logical_plan_count_without_filters(), Some("COUNT(*)".to_string()));
    let aliased = count_plan(Expr::Alias(column("count(*)"), "total".to_string()));
    assert_eq!(aliased.is_logical_plan_count_without_filters(), Some("total".to_string()));
    assert_eq!(count_plan(Expr::Column("count(a)".to_string())).is_logical_plan_count_without_filters(), None);
    assert_eq!(scan("app", vec![]).is_logical_plan_count_without_filters(), None);
    assert_eq!(
        count_plan(Expr::Column("x".to_string())).count_candidate(),
        Some(("x".to_string(), "x".to_string()))
    );
}

#[test]
fn count_answer_needs_lowercase_count_star() {
    assert_eq!(parseable::plan::answer_if_count(&"count(*)".to_string(), "n".to_string()), Some("n".to_string()));
    assert_eq!(parseable::plan::answer_if_count(&"COUNT(*)".to_string(), "n".to_string()), None);
}

#[test]
fn memory_pool_from_config_or_host() {
    let configured = parseable::plan::memory_pool(Some(1 << 30), 999);
    assert_eq!((configured.size, configured.percent), (1 << 30, 100));
    let host = parseable::plan::memory_pool(None, 1000);
    assert_eq!((host.size, host.percent), (1000, 85));
}
