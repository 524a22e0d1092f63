use tfparse::config_parser::{escaped_string, inline_block, root};
use tfparse::json_parser::parse_json;
use tfparse::model::{
    Attribute, AttributeType, JsonValue, TerraformBlock, TerraformBlockWithNoIdentifiers,
    TerraformBlockWithOneIdentifier, TerraformBlockWithTwoIdentifiers,
};

fn num(s: &str) -> tfparse::number::Number {
    let chars: Vec<char> = s.chars().collect();
    let (n, used) = tfparse::json_parser::parse_number(&chars, 0).expect("numeric literal");
    assert_eq!(used, chars.len());
    n
}

#[test]
fn parse_serialised_json() {
    let data = "{\\\"deadLetterTargetArn\\\":\\\"arn:blarp\\\"}";
    let (result, _) = parse_json(data).unwrap();
    let expected = JsonValue::Object(vec![(
        String::from("deadLetterTargetArn"),
        JsonValue::Str(String::from("arn:blarp")),
    )]);
    assert_eq!(result, expected)
}

#[test]
fn parse_serialised_json_with_rest() {
    let data = "{\\\"deadLetterTargetArn\\\":\\\"${aws_sqs_queue.discovery_collector-deadletter-queue.arn}\\\",\\\"maxReceiveCount\\\":2}\n    tags {\n      Environment        = \"sandbox1\"\n    }\n}\n";
    let (result, _) = parse_json(data).unwrap();
    let expected = JsonValue::Object(vec![
        (
            String::from("deadLetterTargetArn"),
            JsonValue::Str(String::from(
                "${aws_sqs_queue.discovery_collector-deadletter-queue.arn}",
            )),
        ),
        (String::from("maxReceiveCount"), JsonValue::Num(num("2.0"))),
    ]);
    assert_eq!(result, expected)
}

#[test]
fn parse_non_serialised_json() {
    let data = r#"
{
    "deadLetterTargetArn": "arn:blarp"
}
"#;
    let (result, _) = parse_json(data).unwrap();
    let expected = JsonValue::Object(vec![(
        String::from("deadLetterTargetArn"),
        JsonValue::Str(String::from("arn:blarp")),
    )]);
    assert_eq!(result, expected)
}

#[test]
fn null_entry() {
    let data = r#"
[
  {
    "entryPoint": null,
    "essential": true
  }
]
"#;
    let (result, _) = parse_json(data).unwrap();
    let expected = JsonValue::Array(vec![JsonValue::Object(vec![
        (String::from("entryPoint"), JsonValue::Null),
        (String::from("essential"), JsonValue::Boolean(true)),
    ])]);
    assert_eq!(result, expected)
}

#[test]
fn parse_hash() {
    let data = r#"
{
  "Version": "2012-10-17",
  "Statement": [
    {
      "Sid": "",
      "Effect": "Allow",
      "Principal": {
        "Service": "vpc-flow-logs.amazonaws.com"
      },
      "Action": "sts:AssumeRole"
    }
  ]
}
"#;
    let expected = JsonValue::Object(vec![
        (String::from("Version"), JsonValue::Str(String::from("2012-10-17"))),
        (
            String::from("Statement"),
            JsonValue::Array(vec![JsonValue::Object(vec![
                (String::from("Sid"), JsonValue::Str(String::from(""))),
                (String::from("Effect"), JsonValue::Str(String::from("Allow"))),
                (
                    String::from("Principal"),
                    JsonValue::Object(vec![(
                        String::from("Service"),
                        JsonValue::Str(String::from("vpc-flow-logs.amazonaws.com")),
                    )]),
                ),
                (String::from("Action"), JsonValue::Str(String::from("sts:AssumeRole"))),
            ])]),
        ),
    ]);

    let (result, _) = parse_json(data).unwrap();
    assert_eq!(result, expected)
}

#[test]
fn inline_block_with_one_pair() {
    let data = r#"{ "application/json" = "{ \"statusCode\": 200 }" }"#;
    let (key, value, consumed) = inline_block(data).unwrap();
    assert_eq!(consumed, data.chars().count());
    assert_eq!(key, String::from("application/json"));
    assert_eq!(
        value,
        AttributeType::Json(JsonValue::Object(vec![(
            String::from("statusCode"),
            JsonValue::Num(num("200.0"))
        )]))
    );
}

#[test]
fn inline_block_resource() {
    let data = r#"
resource "aws_api_gateway_integration" "discovery_thing" {
    request_templates = { "application/json" = "{ \"statusCode\": 200 }" }
}
"#;
    let (result, _) = root(data);
    let expected = vec![TerraformBlock::WithTwoIdentifiers(
        TerraformBlockWithTwoIdentifiers {
            block_type: String::from("resource"),
            first_identifier: String::from("aws_api_gateway_integration"),
            second_identifier: String::from("discovery_thing"),
            attributes: vec![Attribute {
                key: String::from("request_templates"),
                value: AttributeType::Block(vec![Attribute {
                    key: String::from("application/json"),
                    value: AttributeType::Json(JsonValue::Object(vec![(
                        String::from("statusCode"),
                        JsonValue::Num(num("200.0")),
                    )])),
                }]),
            }],
        },
    )];
    assert_eq!(result, expected)
}

#[test]
fn parse_serialised_policy_strings() {
    let data = r#"
resource "aws_sqs_queue" "discovery_collector-queue" {
    visibility_timeout_seconds = 30
    policy               = "{\"deadLetterTargetArn\":\"${aws_sqs_queue.discovery_collector-deadletter-queue.arn}\",\"maxReceiveCount\":2}"
    tags {
      Environment        = "sandbox1"
    }
}
"#;
    let (result, _) = root(data);
    let expected = vec![TerraformBlock::WithTwoIdentifiers(
        TerraformBlockWithTwoIdentifiers {
            block_type: String::from("resource"),
            first_identifier: String::from("aws_sqs_queue"),
            second_identifier: String::from("discovery_collector-queue"),
            attributes: vec![
                Attribute {
                    key: String::from("visibility_timeout_seconds"),
                    value: AttributeType::Num(num("30.0")),
                },
                Attribute {
                    key: String::from("policy"),
                    value: AttributeType::Json(JsonValue::Object(vec![
                        (
                            String::from("deadLetterTargetArn"),
                            JsonValue::Str(String::from(
                                "${aws_sqs_queue.discovery_collector-deadletter-queue.arn}",
                            )),
                        ),
                        (String::from("maxReceiveCount"), JsonValue::Num(num("2.0"))),
                    ])),
                },
                Attribute {
                    key: String::from("tags"),
                    value: AttributeType::Block(vec![Attribute {
                        key: String::from("Environment"),
                        value: AttributeType::Str(String::from("sandbox1")),
                    }]),
                },
            ],
        },
    )];

    assert_eq!(result, expected)
}

#[test]
fn terraform_block_with_empty_line_comments() {
    let data = r#"
# a line of comments to be ignored
#
# another line of comments to be ignored

# some other lines of comments
resource "aws_kms_key" "discovery_cache-master-key" {
    description = "Master key used for creating/decrypting cache token data keys"
    enable_key_rotation = true
}
"#;
    let (result, consumed) = root(data);
    let first_attr = Attribute {
        key: String::from("description"),
        value: AttributeType::Str(String::from(
            "Master key used for creating/decrypting cache token data keys",
        )),
    };
    let second_attr = Attribute {
        key: String::from("enable_key_rotation"),
        value: AttributeType::Boolean(true),
    };
    let block = TerraformBlockWithTwoIdentifiers {
        block_type: String::from("resource"),
        first_identifier: String::from("aws_kms_key"),
        second_identifier: String::from("discovery_cache-master-key"),
        attributes: vec![first_attr, second_attr],
    };
    let expected = vec![TerraformBlock::WithTwoIdentifiers(block)];
    assert_eq!(result, expected);
    // everything but the final newline is consumed
    assert_eq!(consumed, data.chars().count() - 1);
}

#[test]
fn terraform_block_with_comments() {
    let data = r#"
# a line of comments to be ignored
# another line of comments to be ignored
resource "aws_kms_key" "discovery_cache-master-key" {
    description = "Master key used for creating/decrypting cache token data keys"
    enable_key_rotation = true
}
"#;
    let (result, consumed) = root(data);
    let first_attr = Attribute {
        key: String::from("description"),
        value: AttributeType::Str(String::from(
            "Master key used for creating/decrypting cache token data keys",
        )),
    };
    let second_attr = Attribute {
        key: String::from("enable_key_rotation"),
        value: AttributeType::Boolean(true),
    };
    let block = TerraformBlockWithTwoIdentifiers {
        block_type: String::from("resource"),
        first_identifier: String::from("aws_kms_key"),
        second_identifier: String::from("discovery_cache-master-key"),
        attributes: vec![first_attr, second_attr],
    };
    let expected = vec![TerraformBlock::WithTwoIdentifiers(block)];
    assert_eq!(result, expected);
    assert_eq!(consumed, data.chars().count() - 1);
}

#[test]
fn terraform_block_preceded_by_comments_and_blank_lines() {
    let data = r#"
# ==============================================
# Imported from Terraform files

# ----------------------------------------------------------
# Master key used for encrypting/decrypting discovery collector
# cache tokens
resource "aws_kms_key" "discovery_cache-master-key" {
    description = "Master key used for creating/decrypting cache token data keys"
    enable_key_rotation = true
}
"#;
    let (result, consumed) = root(data);
    let first_attr = Attribute {
        key: String::from("description"),
        value: AttributeType::Str(String::from(
            "Master key used for creating/decrypting cache token data keys",
        )),
    };
    let second_attr = Attribute {
        key: String::from("enable_key_rotation"),
        value: AttributeType::Boolean(true),
    };
    let block = TerraformBlockWithTwoIdentifiers {
        block_type: String::from("resource"),
        first_identifier: String::from("aws_kms_key"),
        second_identifier: String::from("discovery_cache-master-key"),
        attributes: vec![first_attr, second_attr],
    };
    let expected = vec![TerraformBlock::WithTwoIdentifiers(block)];
    assert_eq!(result, expected);
    assert_eq!(consumed, data.chars().count() - 1);
}

#[test]
fn string_test() {
    let data = r#""= 0.11.2"
backend "s3" {
    bucket  = "acp-platform-s-discovery-sandbox1"
    key     = "infrastructure/terraform.tfstate"
    region  = "us-east-1"
  }
}"#;
    let (content, consumed) = escaped_string(data).unwrap();
    assert_eq!(content, String::from("= 0.11.2"));
    assert_eq!(consumed, "\"= 0.11.2\"".chars().count());
}

#[test]
fn nested_block_with_an_identifier() {
    let data = r#"
terraform {
  required_version = "= 0.11.2"
  backend "s3" {
    bucket  = "acp-platform-s-discovery-sandbox1"
    key     = "infrastructure/terraform.tfstate"
    region  = "us-east-1"
  }
}
"#;
    let (result, _) = root(data);
    let block = TerraformBlockWithNoIdentifiers {
        block_type: String::from("terraform"),
        attributes: vec![
            Attribute {
                key: String::from("required_version"),
                value: AttributeType::Str(String::from("= 0.11.2")),
            },
            Attribute {
                key: String::from("backend"),
                value: AttributeType::TFBlock(TerraformBlock::WithOneIdentifier(
                    TerraformBlockWithOneIdentifier {
                        block_type: String::from("inner"),
                        first_identifier: String::from("s3"),
                        attributes: vec![
                            Attribute {
                                key: String::from("bucket"),
                                value: AttributeType::Str(String::from(
                                    "acp-platform-s-discovery-sandbox1",
                                )),
                            },
                            Attribute {
                                key: String::from("key"),
                                value: AttributeType::Str(String::from(
                                    "infrastructure/terraform.tfstate",
                                )),
                            },
                            Attribute {
                                key: String::from("region"),
                                value: AttributeType::Str(String::from("us-east-1")),
                            },
                        ],
                    },
                )),
            },
        ],
    };

    let expected = vec![TerraformBlock::NoIdentifiers(block)];
    assert_eq!(result, expected)
}
