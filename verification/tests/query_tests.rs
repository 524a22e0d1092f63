use tfparse::model::{Attribute, AttributeType, JsonValue, TerraformBlockWithTwoIdentifiers};
use tfparse::model::AttributeType::{Array, Str, TemplatedString};
use tfparse::model::TemplateString;
use tfparse::query::{jmespath_query, parse_jmespath, JmespathExpression, QueryPart, TFQueryResult};

fn num(s: &str) -> tfparse::number::Number {
    let chars: Vec<char> = s.chars().collect();
    let (n, _) = tfparse::json_parser::parse_number(&chars, 0).expect("numeric literal");
    n
}

fn example_resource() -> TerraformBlockWithTwoIdentifiers {
    TerraformBlockWithTwoIdentifiers {
        block_type: String::from("resource"),
        first_identifier: String::from("aws_iam_role_policy"),
        second_identifier: String::from("discovery_scheduler_role_policy"),
        attributes: vec![
            Attribute {
                key: String::from("depends_on"),
                value: Array(vec![AttributeType::Str(String::from(
                    "aws_iam_role.discovery_scheduler_role",
                ))]),
            },
            Attribute {
                key: String::from("policy"),
                value: AttributeType::Block(vec![
                    Attribute {
                        key: String::from("Statement"),
                        value: AttributeType::Array(vec![
                            AttributeType::Block(vec![
                                Attribute {
                                    key: String::from("Action"),
                                    value: AttributeType::Array(vec![
                                        AttributeType::Str(String::from("logs:CreateLogStream")),
                                        AttributeType::Str(String::from("logs:CreateLogGroup")),
                                        AttributeType::Str(String::from("logs:PutLogEvents")),
                                    ]),
                                },
                                Attribute {
                                    key: String::from("Effect"),
                                    value: AttributeType::Str(String::from("Allow")),
                                },
                                Attribute {
                                    key: String::from("Resource"),
                                    value: AttributeType::Array(vec![AttributeType::Str(
                                        String::from(
                                            "arn:aws:logs:*:*:log-group:/aws/lambda/*discovery_scheduler*",
                                        ),
                                    )]),
                                },
                            ]),
                            AttributeType::Block(vec![
                                Attribute {
                                    key: String::from("Action"),
                                    value: AttributeType::Array(vec![AttributeType::Str(
                                        String::from("dynamodb:Scan"),
                                    )]),
                                },
                                Attribute {
                                    key: String::from("Effect"),
                                    value: AttributeType::Str(String::from("Allow")),
                                },
                                Attribute {
                                    key: String::from("Resource"),
                                    value: AttributeType::Array(vec![
                                        AttributeType::Str(String::from(
                                            "arn:aws:dynamodb:us-east-1:309983114184:table/discovery_collector-config/*",
                                        )),
                                        AttributeType::Str(String::from(
                                            "arn:aws:dynamodb:us-east-1:309983114184:table/discovery_collector-config",
                                        )),
                                        AttributeType::Str(String::from(
                                            "arn:aws:dynamodb:us-east-1:309983114184:table/discovery_tenant-config/*",
                                        )),
                                        AttributeType::Str(String::from(
                                            "arn:aws:dynamodb:us-east-1:309983114184:table/discovery_tenant-config",
                                        )),
                                    ]),
                                },
                            ]),
                            AttributeType::Block(vec![
                                Attribute {
                                    key: String::from("Action"),
                                    value: AttributeType::Array(vec![AttributeType::Str(
                                        String::from("dynamodb:UpdateItem"),
                                    )]),
                                },
                                Attribute {
                                    key: String::from("Effect"),
                                    value: AttributeType::Str(String::from("Allow")),
                                },
                                Attribute {
                                    key: String::from("Resource"),
                                    value: AttributeType::Array(vec![
                                        AttributeType::Str(String::from(
                                            "arn:aws:dynamodb:us-east-1:309983114184:table/discovery_tenant-config/*",
                                        )),
                                        AttributeType::Str(String::from(
                                            "arn:aws:dynamodb:us-east-1:309983114184:table/discovery_tenant-config",
                                        )),
                                    ]),
                                },
                            ]),
                            AttributeType::Block(vec![
                                Attribute {
                                    key: String::from("Action"),
                                    value: AttributeType::Array(vec![AttributeType::Str(
                                        String::from("sns:Publish"),
                                    )]),
                                },
                                Attribute {
                                    key: String::from("Effect"),
                                    value: AttributeType::Str(String::from("Allow")),
                                },
                                Attribute {
                                    key: String::from("Resource"),
                                    value: AttributeType::Array(vec![AttributeType::Str(
                                        String::from(
                                            "arn:aws:sns:us-east-1:309983114184:discovery_scheduled-discovery-topic",
                                        ),
                                    )]),
                                },
                            ]),
                            AttributeType::Block(vec![
                                Attribute {
                                    key: String::from("Action"),
                                    value: AttributeType::Array(vec![AttributeType::Str(
                                        String::from("events:DescribeRule"),
                                    )]),
                                },
                                Attribute {
                                    key: String::from("Effect"),
                                    value: AttributeType::Str(String::from("Allow")),
                                },
                                Attribute {
                                    key: String::from("Resource"),
                                    value: AttributeType::Array(vec![AttributeType::Str(
                                        String::from(
                                            "arn:aws:events:us-east-1:309983114184:rule/discovery_scheduler-rule",
                                        ),
                                    )]),
                                },
                            ]),
                        ]),
                    },
                    Attribute {
                        key: String::from("Version"),
                        value: AttributeType::Str(String::from("2012-10-17")),
                    },
                ]),
            },
            Attribute {
                key: String::from("role"),
                value: TemplatedString(TemplateString::Variable(String::from(
                    "aws_iam_role.discovery_scheduler_role.id",
                ))),
            },
            Attribute {
                key: String::from("name"),
                value: AttributeType::Str(String::from("discovery_scheduler_role_policy")),
            },
        ],
    }
}

#[test]
fn parse_jmespath_expression() {
    let result = parse_jmespath("policy.Statement[].resource");

    assert_eq!(
        result,
        JmespathExpression {
            path_parts: vec![
                QueryPart::Scalar(String::from("policy")),
                QueryPart::List(String::from("Statement")),
                QueryPart::Scalar(String::from("resource")),
            ]
        }
    )
}

#[test]
fn query_tf_block() {
    let resource = example_resource();

    let result = jmespath_query(&resource, "policy.Statement[].Resource");

    let expected = TFQueryResult::List(vec![
        Array(vec![Str(String::from(
            "arn:aws:logs:*:*:log-group:/aws/lambda/*discovery_scheduler*",
        ))]),
        Array(vec![
            Str(String::from(
                "arn:aws:dynamodb:us-east-1:309983114184:table/discovery_collector-config/*",
            )),
            Str(String::from(
                "arn:aws:dynamodb:us-east-1:309983114184:table/discovery_collector-config",
            )),
            Str(String::from(
                "arn:aws:dynamodb:us-east-1:309983114184:table/discovery_tenant-config/*",
            )),
            Str(String::from(
                "arn:aws:dynamodb:us-east-1:309983114184:table/discovery_tenant-config",
            )),
        ]),
        Array(vec![
            Str(String::from(
                "arn:aws:dynamodb:us-east-1:309983114184:table/discovery_tenant-config/*",
            )),
            Str(String::from(
                "arn:aws:dynamodb:us-east-1:309983114184:table/discovery_tenant-config",
            )),
        ]),
        Array(vec![Str(String::from(
            "arn:aws:sns:us-east-1:309983114184:discovery_scheduled-discovery-topic",
        ))]),
        Array(vec![Str(String::from(
            "arn:aws:events:us-east-1:309983114184:rule/discovery_scheduler-rule",
        ))]),
    ]);
    assert_eq!(result, expected)
}

#[test]
fn query_tf_block_for_single_root_attribute() {
    let resource = example_resource();

    let result = jmespath_query(&resource, "depends_on");

    let expected = TFQueryResult::Scalar(AttributeType::Array(vec![AttributeType::Str(
        String::from("aws_iam_role.discovery_scheduler_role"),
    )]));
    assert_eq!(result, expected)
}

fn parsed_queue_block() -> TerraformBlockWithTwoIdentifiers {
    let data = r#"
resource "aws_sqs_queue" "discovery_collector-queue" {
    visibility_timeout_seconds = 30
    policy               = "{\"deadLetterTargetArn\":\"${aws_sqs_queue.discovery_collector-deadletter-queue.arn}\",\"maxReceiveCount\":2}"
}
"#;
    let (blocks, _) = tfparse::config_parser::root(data);
    match blocks.into_iter().next().unwrap() {
        tfparse::model::TerraformBlock::WithTwoIdentifiers(b) => b,
        other => panic!("unexpected block shape: {:?}", other),
    }
}

#[test]
fn query_into_embedded_json_scalar() {
    let block = parsed_queue_block();
    let result = jmespath_query(&block, "policy.maxReceiveCount");
    assert_eq!(result, TFQueryResult::Scalar(AttributeType::Num(num("2.0"))));
}

#[test]
fn query_into_embedded_json_list_projection() {
    let data = "resource \"aws_iam_role_policy\" \"p1\" {\n  policy = <<EOF\n{\"Statement\":[{\"Resource\":[\"a\",\"b\"]},{\"Resource\":[\"c\"]}]}\nEOF\n}\n";
    let (blocks, _) = tfparse::config_parser::root(data);
    let block = match blocks.into_iter().next().unwrap() {
        tfparse::model::TerraformBlock::WithTwoIdentifiers(b) => b,
        other => panic!("unexpected block shape: {:?}", other),
    };
    let result = jmespath_query(&block, "policy.Statement[].Resource");
    let expected = TFQueryResult::List(vec![
        Array(vec![Str(String::from("a")), Str(String::from("b"))]),
        Array(vec![Str(String::from("c"))]),
    ]);
    assert_eq!(result, expected);
}

#[test]
fn query_miss_is_missing_not_error() {
    let block = parsed_queue_block();
    assert_eq!(jmespath_query(&block, "absent"), TFQueryResult::Missing);
    assert_eq!(jmespath_query(&block, "policy.noSuchKey"), TFQueryResult::Missing);
}

#[test]
fn templated_attribute_value() {
    let data = r#"
resource "aws_sns_topic_subscription" "s1" {
    endpoint = "${aws_iam_role.x.id}"
}
"#;
    let (blocks, _) = tfparse::config_parser::root(data);
    match &blocks[0] {
        tfparse::model::TerraformBlock::WithTwoIdentifiers(b) => {
            assert_eq!(
                b.attributes[0].value,
                TemplatedString(TemplateString::Variable(String::from("aws_iam_role.x.id")))
            );
        }
        other => panic!("unexpected block shape: {:?}", other),
    }
}

#[test]
fn get_id_shapes() {
    let data = r#"
resource "aws_kms_key" "k1" {
    description = "d"
}
"#;
    let (blocks, _) = tfparse::config_parser::root(data);
    assert_eq!(blocks[0].get_id(), String::from("aws_kms_key_k1"));
}
