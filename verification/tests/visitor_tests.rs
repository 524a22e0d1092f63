use tfparse::model::{
    Attribute, AttributeType, JsonValue, TemplateString, TerraformBlock,
    TerraformBlockWithOneIdentifier, TerraformBlockWithTwoIdentifiers,
};
use tfparse::model::AttributeType::{Array, Boolean, Str, TemplatedString};
use tfparse::model::TemplateString::Variable;
use tfparse::query::TFQueryResult::{List, Scalar};
use tfparse::relationships::{convert_arn_to_dot_syntax, extract_query_result, Relationship};
use tfparse::serializer::JsonVisitor;

fn num(s: &str) -> tfparse::number::Number {
    let chars: Vec<char> = s.chars().collect();
    let (n, _) = tfparse::json_parser::parse_number(&chars, 0).expect("numeric literal");
    n
}

fn visitor() -> JsonVisitor {
    JsonVisitor { relationships: Vec::new() }
}

#[test]
fn json_visitor_test() {
    let resource1 = TerraformBlock::WithOneIdentifier(TerraformBlockWithOneIdentifier {
        block_type: String::from("resource"),
        first_identifier: String::from("thing1"),
        attributes: vec![
            Attribute { key: String::from("backend"), value: Str(String::from("s3")) },
            Attribute { key: String::from("bookend"), value: Boolean(true) },
        ],
    });
    let expected = String::from(
        r#"{"type":"resource","name":"thing1","body":{"backend":"s3","bookend":"true"}}"#,
    );
    let v = visitor();
    let result = v.visit_tfblock(&resource1);
    assert_eq!(result, expected)
}

#[test]
fn json_visitor_json() {
    let resource1 = TerraformBlock::WithTwoIdentifiers(TerraformBlockWithTwoIdentifiers {
        block_type: String::from("resource"),
        first_identifier: String::from("aws_sqs_queue"),
        second_identifier: String::from("discovery_collector-queue"),
        attributes: vec![Attribute {
            key: String::from("policy"),
            value: AttributeType::Json(JsonValue::Object(vec![
                (
                    String::from("deadLetterTargetArn"),
                    JsonValue::Str(String::from(
                        "${aws_sqs_queue.discovery_collector-deadletter-queue.arn}",
                    )),
                ),
                (String::from("maxReceiveCount"), JsonValue::Num(num("2.0"))),
            ])),
        }],
    });
    let expected = String::from(
        r#"{"type":"aws_sqs_queue","name":"discovery_collector-queue","body":{"policy":{"deadLetterTargetArn":"${aws_sqs_queue.discovery_collector-deadletter-queue.arn}","maxReceiveCount":"2.0"}}}"#,
    );
    let v = visitor();
    let result = v.visit_tfblock(&resource1);
    assert_eq!(result, expected)
}

#[test]
fn json_visitor_array() {
    let resource1 = TerraformBlock::WithTwoIdentifiers(TerraformBlockWithTwoIdentifiers {
        block_type: String::from("resource"),
        first_identifier: String::from("aws_cloudwatch_metric_alarm"),
        second_identifier: String::from(
            "discovery_diff-engine-queue-cloudwatch-alaram-messages-high",
        ),
        attributes: vec![
            Attribute {
                key: String::from("alarm_name"),
                value: AttributeType::Str(String::from(
                    "discovery_cloudwatch-diff-engine-queue-cloudwatch-alarm-messages-high",
                )),
            },
            Attribute {
                key: String::from("alarm_actions"),
                value: AttributeType::Array(vec![
                    AttributeType::TemplatedString(TemplateString::Variable(String::from(
                        "aws_appautoscaling_policy.discovery_diff-engine-autoscaling-up.arn",
                    ))),
                    AttributeType::TemplatedString(TemplateString::Variable(String::from(
                        "aws_appautoscaling_policy.discovery_diff-engine-autoscaling-down.arn",
                    ))),
                ]),
            },
        ],
    });
    let expected = String::from(
        r#"{"type":"aws_cloudwatch_metric_alarm","name":"discovery_diff-engine-queue-cloudwatch-alaram-messages-high","body":{"alarm_name":"discovery_cloudwatch-diff-engine-queue-cloudwatch-alarm-messages-high","alarm_actions":["aws_appautoscaling_policy.discovery_diff-engine-autoscaling-up.arn","aws_appautoscaling_policy.discovery_diff-engine-autoscaling-down.arn"]}}"#,
    );
    let v = visitor();
    let result = v.visit_tfblock(&resource1);
    assert_eq!(result, expected)
}

#[test]
fn json_visitor_block_test() {
    let resource1 = TerraformBlock::WithTwoIdentifiers(TerraformBlockWithTwoIdentifiers {
        block_type: String::from("resource"),
        first_identifier: String::from("aws_cloudwatch_log_metric_filter"),
        second_identifier: String::from("discovery_diff-tagging-failed-event-error"),
        attributes: vec![
            Attribute {
                key: String::from("name"),
                value: AttributeType::Str(String::from("diff_tagging_failed_event")),
            },
            Attribute {
                key: String::from("metric_transformation"),
                value: AttributeType::Block(vec![
                    Attribute {
                        key: String::from("name"),
                        value: AttributeType::Str(String::from("diff_tagging_failed_event")),
                    },
                    Attribute {
                        key: String::from("namespace"),
                        value: AttributeType::Str(String::from("diff_tagging_log_metrics")),
                    },
                    Attribute {
                        key: String::from("value"),
                        value: AttributeType::Str(String::from("1")),
                    },
                ]),
            },
        ],
    });

    let expected = String::from(
        r#"{"type":"aws_cloudwatch_log_metric_filter","name":"discovery_diff-tagging-failed-event-error","body":{"name":"diff_tagging_failed_event","metric_transformation":{"name":"diff_tagging_failed_event","namespace":"diff_tagging_log_metrics","value":"1"}}}"#,
    );
    let v = visitor();
    let result = v.visit_tfblock(&resource1);
    assert_eq!(result, expected)
}

#[test]
fn extract_scalar_identifier_test() {
    let resource = Scalar(TemplatedString(Variable(String::from(
        "aws_iam_role.discovery_vpc-flow-log-role.id",
    ))));
    let expected = vec![String::from("aws_iam_role.discovery_vpc-flow-log-role.id")];
    let result = extract_query_result(&resource);
    assert_eq!(result, expected)
}

#[test]
fn extract_list_identifier_test() {
    let resource = List(vec![
        Array(vec![Str(String::from(
            "arn:aws:logs:us-east-1:309983114184:log-group:${aws_cloudwatch_log_group.discovery_vpc-flow-log-group.name}",
        ))]),
        Array(vec![Str(String::from(
            "arn:aws:logs:us-east-1:309983114184:log-group:${aws_cloudwatch_log_group.discovery_vpc-flow-log-group.name}:*",
        ))]),
        Array(vec![Str(String::from(
            "arn:aws:logs:us-east-1:309983114184:log-group:${aws_cloudwatch_log_group.discovery_vpc-flow-log-group.name}:*",
        ))]),
    ]);
    let expected = vec![
        String::from(
            "arn:aws:logs:us-east-1:309983114184:log-group:${aws_cloudwatch_log_group.discovery_vpc-flow-log-group.name}",
        ),
        String::from(
            "arn:aws:logs:us-east-1:309983114184:log-group:${aws_cloudwatch_log_group.discovery_vpc-flow-log-group.name}:*",
        ),
        String::from(
            "arn:aws:logs:us-east-1:309983114184:log-group:${aws_cloudwatch_log_group.discovery_vpc-flow-log-group.name}:*",
        ),
    ];
    let result = extract_query_result(&resource);
    assert_eq!(result, expected)
}

#[test]
fn arn_conversion_dynamo() {
    let result = convert_arn_to_dot_syntax(&String::from(
        "arn:aws:dynamodb:us-east-1:309983114184:table/discovery_provider-consistency",
    ));
    let expected = Some(String::from("aws_dynamodb_table.discovery_provider-consistency"));
    assert_eq!(result, expected)
}

#[test]
fn arn_conversion_s3_ending_in_wildcard() {
    let result = convert_arn_to_dot_syntax(&String::from(
        "arn:aws:s3:::acp-platform-s-discovery-sandbox1/env/*",
    ));
    let expected = Some(String::from("aws_s3_bucket.acp-platform-s-discovery-sandbox1/env"));
    assert_eq!(result, expected)
}

#[test]
fn arn_conversion_s3() {
    let result =
        convert_arn_to_dot_syntax(&String::from("arn:aws:s3:::acp-platform-s-discovery-sandbox1"));
    let expected = Some(String::from("aws_s3_bucket.acp-platform-s-discovery-sandbox1"));
    assert_eq!(result, expected)
}

#[test]
fn arn_conversion_sns() {
    let result = convert_arn_to_dot_syntax(&String::from(
        "arn:aws:sns:us-east-1:309983114184:discovery_provider-inconsistency-topic",
    ));
    let expected = Some(String::from("aws_sns_topic.discovery_provider-inconsistency-topic"));
    assert_eq!(result, expected)
}

#[test]
fn arn_conversion_lambda() {
    let result = convert_arn_to_dot_syntax(&String::from(
        "arn:aws:lambda:us-east-1:309983114184:function:discovery_provider-consistency-scheduler",
    ));
    let expected = Some(String::from(
        "aws_lambda_function.discovery_provider-consistency-scheduler",
    ));
    assert_eq!(result, expected)
}

#[test]
fn arn_conversion_sqs() {
    let result = convert_arn_to_dot_syntax(&String::from(
        "arn:aws:sqs:us-east-1:309983114184:sre_auto-remediation-queue",
    ));
    let expected = Some(String::from("aws_sqs_queue.sre_auto-remediation-queue"));
    assert_eq!(result, expected)
}

#[test]
fn arn_conversion_logs() {
    let result = convert_arn_to_dot_syntax(&String::from(
        "arn:aws:logs:*:*:log-group:/aws/lambda/*discovery_remediate-missing-resources*",
    ));
    let expected = None;
    assert_eq!(result, expected)
}

#[test]
fn convert_by_matching() {
    let data = r#"{
            "type": "aws_kms_key",
            "name": "discovery_cache-master-key",
            "body": {
                "description": "Master key used for creating/decrypting cache token data keys",
                "enable_key_rotation": "true",
                "lifecycle": {
                    "prevent_destroy": "true"
                }
            }
        }"#;
    let expected = TerraformBlock::WithTwoIdentifiers(TerraformBlockWithTwoIdentifiers {
        block_type: String::from("resource"),
        first_identifier: String::from("aws_kms_key"),
        second_identifier: String::from("discovery_cache-master-key"),
        attributes: vec![
            Attribute {
                key: String::from("description"),
                value: Str(String::from(
                    "Master key used for creating/decrypting cache token data keys",
                )),
            },
            Attribute {
                key: String::from("enable_key_rotation"),
                value: Str(String::from("true")),
            },
            Attribute {
                key: String::from("lifecycle"),
                value: AttributeType::Block(vec![Attribute {
                    key: String::from("prevent_destroy"),
                    value: Str(String::from("true")),
                }]),
            },
        ],
    });

    let result = tfparse::json_to_model::convert_json_to_model(data);
    assert_eq!(result, expected)
}

#[test]
fn block_render_reextracts_attributes() {
    let block = TerraformBlock::WithTwoIdentifiers(TerraformBlockWithTwoIdentifiers {
        block_type: String::from("resource"),
        first_identifier: String::from("aws_kms_key"),
        second_identifier: String::from("k1"),
        attributes: vec![
            Attribute { key: String::from("description"), value: Str(String::from("d")) },
            Attribute {
                key: String::from("lifecycle"),
                value: AttributeType::Block(vec![Attribute {
                    key: String::from("prevent_destroy"),
                    value: Str(String::from("x")),
                }]),
            },
        ],
    });
    let v = visitor();
    let rendered = v.visit_tfblock(&block);
    let back = tfparse::json_to_model::make_block_with_two_identifiers_from_json(rendered.as_str());
    assert_eq!(back.block_type, String::from("resource"));
    assert_eq!(back.first_identifier, String::from("aws_kms_key"));
    assert_eq!(back.second_identifier, String::from("k1"));
    assert_eq!(back.attributes.len(), 2);
    assert_eq!(back.attributes[0].key, String::from("description"));
    assert_eq!(back.attributes[0].value, Str(String::from("d")));
    assert_eq!(back.attributes[1].key, String::from("lifecycle"));
    assert_eq!(
        back.attributes[1].value,
        AttributeType::Block(vec![Attribute {
            key: String::from("prevent_destroy"),
            value: Str(String::from("x")),
        }])
    );
}

#[test]
fn relationship_validation() {
    let good = Relationship {
        source: String::from("role"),
        target: String::from("policy.Statement[].Resource"),
        label: String::from(""),
    };
    assert!(good.validate().is_ok());
    let bad = Relationship {
        source: String::from("role"),
        target: String::from("somewhere.else"),
        label: String::from(""),
    };
    let err = bad.validate().unwrap_err();
    assert_eq!(*err.details(), String::from("target is not formatted correctly"));
}

#[test]
fn relationship_parse_finds_targets() {
    let data = "resource \"aws_iam_role_policy\" \"p1\" {\n  role = \"${aws_iam_role.my-role.id}\"\n  policy = <<EOF\n{\"Statement\":[{\"Resource\":[\"arn:aws:sqs:us-east-1:1:q1\",\"arn:aws:sqs:us-east-1:1:q1\"]}]}\nEOF\n}\n";
    let (blocks, _) = tfparse::config_parser::root(data);
    let block = match blocks.into_iter().next().unwrap() {
        TerraformBlock::WithTwoIdentifiers(b) => b,
        other => panic!("unexpected block shape: {:?}", other),
    };
    let specs = vec![(
        String::from("aws_iam_role_policy"),
        Relationship {
            source: String::from("role"),
            target: String::from("policy.Statement[].Resource"),
            label: String::from(""),
        },
    )];
    let rels = tfparse::relationships::parse(&block, &specs);
    assert_eq!(
        rels,
        vec![Relationship {
            source: String::from("aws_iam_role.my-role"),
            target: String::from("aws_sqs_queue.q1"),
            label: String::from(""),
        }]
    );
}

#[test]
fn dispatch_renders_document() {
    let data = r#"
resource "aws_kms_key" "k1" {
    description = "d"
}
"#;
    let (blocks, _) = tfparse::config_parser::root(data);
    let out = tfparse::serializer::dispatch(
        &blocks,
        Vec::new(),
        tfparse::policies::Policies { policies: vec![] },
    );
    assert_eq!(
        out,
        String::from(
            r#"{"resources":[{"type":"aws_kms_key","name":"k1","body":{"description":"d"}}],"relationships":[],"policy_results":{}}"#
        )
    );
}
