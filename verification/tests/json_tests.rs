use tfparse::json_parser::{copy_range, escaped_l, parse_json, scan_raw, serialize};
use tfparse::model::JsonValue;

fn chars(s: &str) -> Vec<char> {
    s.chars().collect()
}

#[test]
fn parse_escaped_string() {
    let data = chars("\\\"deadLetterTargetArn\\\"");
    let (content, consumed) = escaped_l(&data, 0).unwrap();
    assert_eq!(content, String::from("deadLetterTargetArn"));
    assert_eq!(consumed, data.len());
}

#[test]
fn parse_r_blarp_string() {
    let data = chars("arn:blarp\n");
    let end = scan_raw(&data, 0);
    assert_eq!(copy_range(&data, 0, end), String::from("arn:blarp"));
    assert_eq!(end, data.len() - 1);
}

#[test]
fn json_round_trip_normal() {
    let data = r#"
{
  "Version": "2012-10-17",
  "Statement": [
    {
      "Sid": "",
      "Effect": "Allow",
      "Count": 2.5,
      "Flag": true,
      "Nothing": null
    }
  ]
}
"#;
    let (value, _) = parse_json(data).unwrap();
    let rendered = serialize(&value);
    let (again, consumed) = parse_json(rendered.as_str()).unwrap();
    assert_eq!(consumed, rendered.chars().count());
    assert_eq!(again, value);
}

#[test]
fn json_round_trip_escaped() {
    let data = "{\\\"deadLetterTargetArn\\\":\\\"arn:blarp\\\",\\\"maxReceiveCount\\\":2}";
    let (value, _) = parse_json(data).unwrap();
    let rendered = serialize(&value);
    let (again, _) = parse_json(rendered.as_str()).unwrap();
    assert_eq!(again, value);
}

#[test]
fn json_serialize_exact_text() {
    let data = "{\\\"a\\\":\\\"b\\\",\\\"n\\\":2}";
    let (value, _) = parse_json(data).unwrap();
    assert_eq!(serialize(&value), String::from("{\"a\":\"b\",\"n\":2}"));
}

#[test]
fn parse_json_rejects_scalars_and_junk() {
    assert!(parse_json("true").is_none());
    assert!(parse_json("12").is_none());
    assert!(parse_json("not json").is_none());
    assert!(parse_json("{\"unterminated\":").is_none());
}

#[test]
fn number_literals_normalize() {
    let two = chars("2");
    let two_dec = chars("2.0");
    let (a, _) = tfparse::json_parser::parse_number(&two, 0).unwrap();
    let (b, _) = tfparse::json_parser::parse_number(&two_dec, 0).unwrap();
    assert!(a.eq_value(&b));
    assert_eq!(a.to_literal(), String::from("2"));

    let frac = chars("2.50");
    let (c, _) = tfparse::json_parser::parse_number(&frac, 0).unwrap();
    assert_eq!(c.to_literal(), String::from("2.5"));
    assert!(!c.eq_value(&a));
    assert!(a.lt(&c));
    assert!(!c.lt(&a));

    let small = chars("0.0125");
    let (d, _) = tfparse::json_parser::parse_number(&small, 0).unwrap();
    assert_eq!(d.to_literal(), String::from("0.0125"));

    let neg = chars("-30");
    let (e, _) = tfparse::json_parser::parse_number(&neg, 0).unwrap();
    assert_eq!(e.to_literal(), String::from("-30"));
    assert!(e.lt(&a));

    let exp = chars("25e2");
    let (f, _) = tfparse::json_parser::parse_number(&exp, 0).unwrap();
    assert_eq!(f.to_literal(), String::from("2500"));
}

#[test]
fn heredoc_json_attribute() {
    let data = "resource \"aws_iam_role\" \"r1\" {\n  assume_role_policy = <<EOF\n{\n  \"Version\": \"2012-10-17\"\n}\nEOF\n}\n";
    let (blocks, _) = tfparse::config_parser::root(data);
    assert_eq!(blocks.len(), 1);
    match &blocks[0] {
        tfparse::model::TerraformBlock::WithTwoIdentifiers(b) => {
            assert_eq!(b.attributes.len(), 1);
            assert_eq!(b.attributes[0].key, String::from("assume_role_policy"));
            assert_eq!(
                b.attributes[0].value,
                tfparse::model::AttributeType::Json(JsonValue::Object(vec![(
                    String::from("Version"),
                    JsonValue::Str(String::from("2012-10-17"))
                )]))
            );
        }
        other => panic!("unexpected block shape: {:?}", other),
    }
}
