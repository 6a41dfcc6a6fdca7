use codex::error::{ApplicationError, LaxError};
use codex::mason::query::MasonFilter;
use codex::mason::value::MasonDirection;
use codex::rsql::RsqlQueryParser;

fn parsed(input: &str) -> String {
    let parser = RsqlQueryParser;
    match parser.parse_filter(input) {
        Ok(filter) => format!("{:?}", filter),
        Err(error) => panic!("expected a filter for {input:?}, got {error:?}"),
    }
}

fn rejected(input: &str) -> String {
    let parser = RsqlQueryParser;
    match parser.parse_filter(input) {
        Err(LaxError::Application(ApplicationError::Validation(message))) => message,
        other => panic!("expected a validation error for {input:?}, got {other:?}"),
    }
}

#[test]
fn equality_leaf() {
    assert_eq!(parsed("name==foo"), "Eq(\"name\", Text(\"foo\"))");
}

#[test]
fn every_single_argument_operator() {
    assert_eq!(parsed("a!=1"), "NotEq(\"a\", Text(\"1\"))");
    assert_eq!(parsed("a=gt=1"), "Gt(\"a\", Text(\"1\"))");
    assert_eq!(parsed("a=ge=1"), "Gte(\"a\", Text(\"1\"))");
    assert_eq!(parsed("a=lt=1"), "Lt(\"a\", Text(\"1\"))");
    assert_eq!(parsed("a=le=1"), "Lte(\"a\", Text(\"1\"))");
    assert_eq!(parsed("a=like=x"), "Like(\"a\", \"x\")");
    assert_eq!(parsed("a=starts=x"), "StartsWith(\"a\", \"x\")");
    assert_eq!(parsed("a=ends=x"), "EndsWith(\"a\", \"x\")");
}

#[test]
fn and_binds_tighter_than_or() {
    assert_eq!(
        parsed("a==1;b==2,c==3"),
        "Or([And([Eq(\"a\", Text(\"1\")), Eq(\"b\", Text(\"2\"))]), Eq(\"c\", Text(\"3\"))])"
    );
}

#[test]
fn groups_override_precedence() {
    assert_eq!(
        parsed("(a==1,b==2);c=gt=3"),
        "And([Or([Eq(\"a\", Text(\"1\")), Eq(\"b\", Text(\"2\"))]), Gt(\"c\", Text(\"3\"))])"
    );
}

#[test]
fn a_group_of_one_is_the_operand_itself() {
    assert_eq!(parsed("(a==1)"), "Eq(\"a\", Text(\"1\"))");
}

#[test]
fn set_membership_lists() {
    assert_eq!(
        parsed("status=in=(open,closed)"),
        "In(\"status\", [Text(\"open\"), Text(\"closed\")])"
    );
    assert_eq!(parsed("status=out=(draft)"), "NotIn(\"status\", [Text(\"draft\")])");
}

#[test]
fn null_checks() {
    assert_eq!(parsed("deleted_at=null=true"), "IsNull(\"deleted_at\", true)");
    assert_eq!(parsed("deleted_at=null=false"), "IsNull(\"deleted_at\", false)");
}

#[test]
fn identifiers_take_dots_and_underscores_and_values_take_spaces() {
    assert_eq!(parsed("  node.kind_id==foo bar  "), "Eq(\"node.kind_id\", Text(\"foo bar\"))");
}

#[test]
fn blank_expression_is_rejected() {
    assert_eq!(rejected("   "), "RSQL expression is empty");
}

#[test]
fn trailing_input_is_rejected() {
    assert_eq!(rejected("a==1)"), "unexpected trailing input in RSQL expression: ')'");
    assert_eq!(rejected("a==1;"), "unexpected trailing input in RSQL expression: ';'");
}

#[test]
fn unparsable_expression_is_rejected() {
    assert_eq!(rejected("==1"), "invalid RSQL expression: '==1'");
    assert_eq!(rejected("x=in=(a,)"), "invalid RSQL expression: 'x=in=(a,)'");
    assert_eq!(rejected("x=null=maybe"), "invalid RSQL expression: 'x=null=maybe'");
    assert_eq!(rejected("x=approx=1"), "invalid RSQL expression: 'x=approx=1'");
}

#[test]
fn ten_nested_groups_parse() {
    let input = format!("{}a==1{}", "(".repeat(10), ")".repeat(10));
    assert_eq!(parsed(&input), "Eq(\"a\", Text(\"1\"))");
}

#[test]
fn eleven_nested_groups_fail() {
    let input = format!("{}a==1{}", "(".repeat(11), ")".repeat(11));
    assert_eq!(rejected(&input), format!("invalid RSQL expression: '{input}'"));
}

#[test]
fn parsed_junctions_have_two_or_more_children() {
    let parser = RsqlQueryParser;
    let filter = parser.parse_filter("a==1,b==2;c==3,d==4").unwrap();
    match filter {
        MasonFilter::Or(children) => {
            assert_eq!(children.len(), 3);
            match &children[1] {
                MasonFilter::And(inner) => assert_eq!(inner.len(), 2),
                other => panic!("expected an And, got {other:?}"),
            }
        }
        other => panic!("expected an Or, got {other:?}"),
    }
}

#[test]
fn sort_clauses_with_directions() {
    let parser = RsqlQueryParser;
    let clauses = parser.parse_sort("-created_at, +name ,title,,- spaced ").unwrap();
    let described: Vec<(String, bool)> = clauses
        .iter()
        .map(|clause| (clause.column.clone(), clause.direction == MasonDirection::Desc))
        .collect();
    assert_eq!(
        described,
        vec![
            ("created_at".to_string(), true),
            ("name".to_string(), false),
            ("title".to_string(), false),
            ("spaced".to_string(), true),
        ]
    );
}

#[test]
fn empty_sort_has_no_clauses() {
    let parser = RsqlQueryParser;
    assert_eq!(parser.parse_sort("").unwrap().len(), 0);
    assert_eq!(parser.parse_sort(" , ,").unwrap().len(), 0);
}
