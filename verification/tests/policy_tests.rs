use tfparse::model::{Attribute, AttributeType, JsonValue, TerraformBlock, TerraformBlockWithTwoIdentifiers};
use tfparse::policies::{Filter, Policies, Policy};
use tfparse::policy_evaluator::{evaluate, evaluate_filter, evaluate_policy, extract_policy_targets, FilterResult, PolicyResult};
use tfparse::query::TFQueryResult;

fn num(s: &str) -> tfparse::number::Number {
    let chars: Vec<char> = s.chars().collect();
    let (n, _) = tfparse::json_parser::parse_number(&chars, 0).expect("numeric literal");
    n
}

fn setup_policies() -> Policies {
    Policies {
        policies: vec![
            Policy::new(
                "example-do-policy-name-check",
                "balbabal",
                "aws_iam_role_policy",
                vec![Filter::new("policy.maxReceiveCount", "eq", "2.0")],
            ),
            Policy::new(
                "example-do-ec2-id-check",
                "description...",
                "aws_ec2_instance",
                vec![Filter::new("id", "eq", "id-that-we-are-looking-for2")],
            ),
            Policy::new(
                "policy-id-check",
                "balbabal",
                "aws_iam_role_policy",
                vec![Filter::new("visibility_timeout_seconds", "eq", "3.1")],
            ),
        ],
    }
}

fn setup_resources() -> Vec<TerraformBlock> {
    vec![
        TerraformBlock::WithTwoIdentifiers(TerraformBlockWithTwoIdentifiers {
            block_type: String::from("resource"),
            first_identifier: String::from("aws_iam_role_policy"),
            second_identifier: String::from("my-iam-policy"),
            attributes: vec![
                Attribute {
                    key: String::from("visibility_timeout_seconds"),
                    value: AttributeType::Num(num("30.0")),
                },
                Attribute {
                    key: String::from("policy"),
                    value: AttributeType::Json(JsonValue::Object(vec![
                        (
                            String::from("deadLetterTargetArn"),
                            JsonValue::Str(String::from(
                                "${aws_sqs_queue.discovery_collector-deadletter-queue.arn}",
                            )),
                        ),
                        (String::from("maxReceiveCount"), JsonValue::Num(num("2.0"))),
                    ])),
                },
            ],
        }),
        TerraformBlock::WithTwoIdentifiers(TerraformBlockWithTwoIdentifiers {
            block_type: String::from("resource"),
            first_identifier: String::from("aws_iam_role_policy"),
            second_identifier: String::from("second-iam-policy"),
            attributes: vec![Attribute {
                key: String::from("visibility_timeout_seconds"),
                value: AttributeType::Num(num("30.0")),
            }],
        }),
        TerraformBlock::WithTwoIdentifiers(TerraformBlockWithTwoIdentifiers {
            block_type: String::from("resource"),
            first_identifier: String::from("aws_ec2_instance"),
            second_identifier: String::from("my_ec2_instance"),
            attributes: vec![Attribute {
                key: String::from("id"),
                value: AttributeType::Str(String::from("id-that-we-are-looking-for")),
            }],
        }),
    ]
}

#[test]
fn policy_evaluator_evaluate_filter_test() {
    let policies = setup_policies();

    let filter = Filter::new("policy.maxReceiveCount", "eq", "2.0");
    let filter_result = FilterResult::new(filter, true);

    let attribute_input = AttributeType::Block(vec![Attribute {
        key: String::from("policy.maxReceiveCount"),
        value: AttributeType::Num(num("2.0")),
    }]);
    let result = evaluate_filter(&policies.policies[0].filters[0], attribute_input);
    assert_eq!(result, filter_result)
}

#[test]
fn evaluate_policy_test() {
    let resources = setup_resources();
    let policies = setup_policies();

    let result = evaluate_policy(&policies.policies[0], &resources[0]);
    let filter = Filter::new("policy.maxReceiveCount", "eq", "2.0");
    let filter_result = FilterResult::new(filter, true);
    let expected = PolicyResult::new(
        vec![filter_result],
        policies.policies[0].name.clone(),
        true,
    );

    assert_eq!(result, expected)
}

#[test]
fn unique_policy_resources_test() {
    let policies = setup_policies();
    let result = extract_policy_targets(&policies);
    assert_eq!(
        result,
        vec![String::from("aws_iam_role_policy"), String::from("aws_ec2_instance")]
    )
}

#[test]
fn evaluate_test() {
    let resources = setup_resources();
    let policies = setup_policies();

    let result = evaluate(policies, &resources);

    assert!(result.iter().any(|(k, _)| *k == resources[0].get_id()));
    assert!(result.iter().any(|(k, _)| *k == resources[1].get_id()));
    assert!(result.iter().any(|(k, _)| *k == resources[2].get_id()));
}

#[test]
fn policies_evaluate_filter_test() {
    let attribute_type = AttributeType::Block(vec![Attribute {
        key: String::from("policy.maxReceiveCount"),
        value: AttributeType::Num(num("2.0")),
    }]);
    let query_result = TFQueryResult::Scalar(attribute_type);

    let filter = Filter::new("policy.maxReceiveCount", "eq", "2.0");
    let result = filter.evaluate(query_result);
    assert_eq!(
        result,
        tfparse::policies::FilterResult::new(filter, true)
    )
}

#[test]
fn filter_orderings() {
    let lt = Filter::new("n", "lt", "10");
    let gt = Filter::new("n", "gt", "2.5");
    let five = TFQueryResult::Scalar(AttributeType::Num(num("5")));
    assert!(lt.evaluate(five).result);
    let five2 = TFQueryResult::Scalar(AttributeType::Num(num("5")));
    assert!(gt.evaluate(five2).result);
    let one = TFQueryResult::Scalar(AttributeType::Num(num("1")));
    assert!(!gt.evaluate(one).result);

    let slt = Filter::new("s", "lt", "beta");
    let alpha = TFQueryResult::Scalar(AttributeType::Str(String::from("alpha")));
    assert!(slt.evaluate(alpha).result);
}

#[test]
fn filter_list_semantics() {
    let eq = Filter::new("xs", "eq", "a");
    let all_a = TFQueryResult::List(vec![
        AttributeType::Str(String::from("a")),
        AttributeType::Str(String::from("a")),
    ]);
    assert!(eq.evaluate(all_a).result);
    let mixed = TFQueryResult::List(vec![
        AttributeType::Str(String::from("a")),
        AttributeType::Str(String::from("b")),
    ]);
    let eq2 = Filter::new("xs", "eq", "a");
    assert!(!eq2.evaluate(mixed).result);

    let contains = Filter::new("xs", "contains", "b");
    let mixed2 = TFQueryResult::List(vec![
        AttributeType::Str(String::from("a")),
        AttributeType::Str(String::from("b")),
    ]);
    assert!(contains.evaluate(mixed2).result);
}

#[test]
fn filter_non_numeric_value_never_matches_numbers() {
    let f = Filter::new("n", "eq", "not-a-number");
    let five = TFQueryResult::Scalar(AttributeType::Num(num("5")));
    assert!(!f.evaluate(five).result);
    let miss = Filter::new("n", "eq", "5");
    assert!(!miss.evaluate(TFQueryResult::Missing).result);
}
