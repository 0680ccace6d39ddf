use jwt::claims::{generate_collision_name, Claim, ClaimSet, ClaimType, StringOrURI};
use jwt::err::JWTError;
use jwt::JsonSerializable;
use serde_json::Value;

fn text(value: &str) -> Value {
    Value::String(String::from(value))
}

#[test]
fn test_stringoruri_string() {
    let s = StringOrURI::parse(String::from("foo")).unwrap();
    assert!(matches!(s, StringOrURI::String(_)));
    assert_eq!(s.as_str(), "foo");
}

#[test]
fn test_stringoruri_uri() {
    let s = StringOrURI::parse(String::from("foo:bar")).unwrap();
    assert!(matches!(s, StringOrURI::URI(_)));
    assert_eq!(s.as_str(), "foo:bar");
}

#[test]
fn test_claim_registered() {
    let c = Claim::parse(String::from("iss"), text("{foo:bar}")).unwrap();
    assert_eq!(c.claim_value, "{foo:bar}");
    assert!(matches!(c.claim_type, ClaimType::Registered));
}

#[test]
fn test_claim_public_uri() {
    let c = Claim::parse(String::from("foo:bar"), text("{bar:baz}")).unwrap();
    assert_eq!(c.claim_value, "{bar:baz}");
    assert!(matches!(c.claim_type, ClaimType::Public));
}

#[test]
fn test_claim_private() {
    let c = Claim::parse(String::from("foo"), text("{bar:baz}")).unwrap();
    assert_eq!(c.claim_value, "{bar:baz}");
    assert!(matches!(c.claim_type, ClaimType::Private));
}

#[test]
fn test_claim_set_decode_str() {
    let c = ClaimSet::decode_str("{\"a\": \"b\"}").unwrap();
    assert_eq!(c.get("a").unwrap().claim_value, "b");
}

#[test]
fn test_claim_set_encode_str() {
    let v = "{\"a\":\"b\"}";
    let cs = ClaimSet::decode_str(v).unwrap();
    assert_eq!(cs.encode_str(), v);
}

#[test]
fn test_claim_set_encode_b64() {
    let v = "eyJhIjoiYiJ9";
    let cs = ClaimSet::decode_b64(v).unwrap();
    println!("{:?}", cs);
    assert_eq!(cs.encode_b64(), v);
}

#[test]
fn new_names_are_the_empty_text_and_a_short_uri() {
    let plain = StringOrURI::new_string();
    assert!(matches!(plain, StringOrURI::String(_)));
    assert_eq!(plain.as_str(), "");
    let uri = StringOrURI::new_uri();
    assert!(matches!(uri, StringOrURI::URI(_)));
    assert_eq!(uri.as_str(), "foo:bar");
}

#[test]
fn the_empty_text_is_a_plain_name() {
    let name = StringOrURI::parse(String::new()).unwrap();
    assert!(matches!(name, StringOrURI::String(_)));
    assert_eq!(name.as_str(), "");
    assert!(matches!(Claim::get_claim_type(&name), ClaimType::Private));
}

#[test]
fn a_plain_name_is_kept_letter_for_letter() {
    let name = StringOrURI::parse(String::from("a b\t\"c\" \u{e9}")).unwrap();
    assert!(matches!(name, StringOrURI::String(_)));
    assert_eq!(name.as_str(), "a b\t\"c\" \u{e9}");
}

#[test]
fn a_uri_name_is_held_as_the_parser_writes_it() {
    let name = StringOrURI::parse(String::from("HTTP://EXAMPLE.com")).unwrap();
    assert!(matches!(name, StringOrURI::URI(_)));
    assert_eq!(name.as_str(), "http://example.com/");
}

#[test]
fn a_name_with_a_colon_that_is_no_uri_is_a_parse_error() {
    match StringOrURI::parse(String::from(":foo")) {
        Err(JWTError::ParseError(cause)) => assert_eq!(cause, "relative URL without a base"),
        other => panic!("expected a parse error, got {:?}", other),
    }
    assert!(matches!(
        StringOrURI::parse(String::from("foo bar: baz")),
        Err(JWTError::ParseError(_))
    ));
}

#[test]
fn the_outcome_of_the_uri_parser_decides_the_name() {
    let name = StringOrURI::from_uri_outcome(Ok(String::from("urn:x"))).unwrap();
    assert!(matches!(name, StringOrURI::URI(_)));
    assert_eq!(name.as_str(), "urn:x");
    match StringOrURI::from_uri_outcome(Err(String::from("empty host"))) {
        Err(JWTError::ParseError(cause)) => assert_eq!(cause, "empty host"),
        other => panic!("expected a parse error, got {:?}", other),
    }
}

#[test]
fn the_seven_registered_names_are_registered() {
    for name in ["iss", "sub", "aud", "exp", "nbf", "iat", "jti"] {
        let parsed = StringOrURI::parse(String::from(name)).unwrap();
        assert!(matches!(parsed, StringOrURI::String(_)));
        assert!(matches!(Claim::get_claim_type(&parsed), ClaimType::Registered));
    }
}

#[test]
fn other_plain_names_are_private() {
    for name in ["", "is", "isss", "ISS", "iss ", "name", "jti2", "exp\n"] {
        let parsed = StringOrURI::parse(String::from(name)).unwrap();
        assert!(matches!(parsed, StringOrURI::String(_)));
        assert!(matches!(Claim::get_claim_type(&parsed), ClaimType::Private));
    }
}

#[test]
fn uri_names_are_public() {
    for name in ["foo:bar", "https://example.com/claims/role", "urn:ietf:params:oauth:iss"] {
        let parsed = StringOrURI::parse(String::from(name)).unwrap();
        assert!(matches!(parsed, StringOrURI::URI(_)));
        assert!(matches!(Claim::get_claim_type(&parsed), ClaimType::Public));
    }
    let hand_made = StringOrURI::URI(String::from("iss"));
    assert!(matches!(Claim::get_claim_type(&hand_made), ClaimType::Public));
}

#[test]
fn a_new_claim_is_private_unnamed_and_holds_the_empty_object() {
    let c = Claim::new();
    assert!(matches!(c.claim_type, ClaimType::Private));
    assert!(matches!(c.claim_name, StringOrURI::String(_)));
    assert_eq!(c.claim_name.as_str(), "");
    assert_eq!(c.claim_value, Value::Object(serde_json::Map::new()));
    assert_eq!(c.encode_str(), "{\"\":{}}");
}

#[test]
fn a_claim_keeps_its_value_whatever_it_is() {
    let mut inner = serde_json::Map::new();
    inner.insert(String::from("k"), Value::Array(vec![Value::from(1), Value::Null]));
    let value = Value::Object(inner);
    let c = Claim::parse(String::from("data"), value.clone()).unwrap();
    assert_eq!(c.claim_value, value);
    assert_eq!(c.encode_str(), "{\"data\":{\"k\":[1,null]}}");
}

#[test]
fn a_claim_fails_as_its_name_does() {
    match Claim::parse(String::from(":foo"), Value::Null) {
        Err(JWTError::ParseError(cause)) => assert_eq!(cause, "relative URL without a base"),
        other => panic!("expected a parse error, got {:?}", other),
    }
}

#[test]
fn a_claim_is_written_as_an_object_of_one_member() {
    let c = Claim::parse(String::from("foo"), text("bar")).unwrap();
    assert_eq!(c.encode_str(), "{\"foo\":\"bar\"}");
    let n = Claim::parse(String::from("exp"), Value::from(1300819380)).unwrap();
    assert_eq!(n.encode_str(), "{\"exp\":1300819380}");
    let b = Claim::parse(String::from("http://example.com/is_root"), Value::Bool(true)).unwrap();
    assert_eq!(b.encode_str(), "{\"http://example.com/is_root\":true}");
    let q = Claim::parse(String::from("q"), text("say \"hi\"\n")).unwrap();
    assert_eq!(q.encode_str(), "{\"q\":\"say \\\"hi\\\"\\n\"}");
}

#[test]
fn marking_public_changes_the_kind_and_nothing_else() {
    let mut c = Claim::parse(String::from("iss"), text("joe")).unwrap();
    assert!(matches!(c.claim_type, ClaimType::Registered));
    c.mark_public();
    assert!(matches!(c.claim_type, ClaimType::Public));
    assert!(matches!(c.claim_name, StringOrURI::String(_)));
    assert_eq!(c.claim_name.as_str(), "iss");
    assert_eq!(c.claim_value, "joe");
    c.mark_public();
    assert!(matches!(c.claim_type, ClaimType::Public));
}

#[test]
fn a_collision_name_is_a_uuid_a_hyphen_and_the_fragment() {
    let name = generate_collision_name("role");
    assert_eq!(name.len(), 36 + 1 + 4);
    assert!(name.ends_with("-role"));
    let uuid: Vec<char> = name.chars().take(36).collect();
    for (i, c) in uuid.iter().enumerate() {
        if i == 8 || i == 13 || i == 18 || i == 23 {
            assert_eq!(*c, '-');
        } else {
            assert!(matches!(*c, '0'..='9' | 'a'..='f'));
        }
    }
    assert_eq!(uuid[14], '4');
    assert!(matches!(uuid[19], '8' | '9' | 'a' | 'b'));
    assert_ne!(name, generate_collision_name("role"));
    assert_eq!(generate_collision_name("").len(), 37);
}

#[test]
fn a_collision_name_joins_what_it_is_given() {
    assert_eq!(jwt::claims::collision_name("abc", "role"), "abc-role");
    assert_eq!(jwt::claims::collision_name("", ""), "-");
}

#[test]
fn the_empty_set_is_written_as_two_braces() {
    let cs = ClaimSet::new();
    assert_eq!(cs.encode_str(), "{}");
    assert_eq!(cs.encode_b64(), "e30=");
    assert!(matches!(cs.get("a"), Err(JWTError::SchemaError)));
    let read = ClaimSet::decode_str("{}").unwrap();
    assert_eq!(read.encode_str(), "{}");
    let read = ClaimSet::decode_str(" { } ").unwrap();
    assert_eq!(read.encode_str(), "{}");
}

#[test]
fn claims_are_written_in_the_order_of_insertion_with_commas_between() {
    let mut cs = ClaimSet::new();
    cs.insert(Claim::parse(String::from("sub"), text("joe")).unwrap()).unwrap();
    cs.insert(Claim::parse(String::from("admin"), Value::Bool(true)).unwrap()).unwrap();
    cs.insert(Claim::parse(String::from("exp"), Value::from(7)).unwrap()).unwrap();
    assert_eq!(cs.encode_str(), "{\"sub\":\"joe\",\"admin\":true,\"exp\":7}");
    assert_eq!(cs.encode_b64(), "eyJzdWIiOiJqb2UiLCJhZG1pbiI6dHJ1ZSwiZXhwIjo3fQ==");
}

#[test]
fn a_second_claim_of_the_same_name_is_refused_and_the_set_stays() {
    let mut cs = ClaimSet::new();
    assert!(cs.insert(Claim::parse(String::from("a"), Value::from(1)).unwrap()).is_ok());
    assert!(cs.insert(Claim::parse(String::from("b"), Value::from(2)).unwrap()).is_ok());
    let before = cs.encode_str();
    let again = cs.insert(Claim::parse(String::from("a"), Value::from(3)).unwrap());
    assert!(matches!(again, Err(JWTError::SchemaError)));
    assert_eq!(cs.encode_str(), before);
    assert_eq!(cs.encode_str(), "{\"a\":1,\"b\":2}");
    assert_eq!(cs.get("a").unwrap().claim_value, 1);
    let same_value = cs.insert(Claim::parse(String::from("b"), Value::from(2)).unwrap());
    assert!(matches!(same_value, Err(JWTError::SchemaError)));
    assert_eq!(cs.encode_str(), before);
}

#[test]
fn a_plain_name_and_a_uri_of_the_same_text_collide() {
    let mut cs = ClaimSet::new();
    cs.insert(Claim::parse(String::from("foo:bar"), Value::Null).unwrap()).unwrap();
    let plain = Claim {
        claim_type: ClaimType::Private,
        claim_name: StringOrURI::String(String::from("foo:bar")),
        claim_value: Value::Null,
    };
    assert!(matches!(cs.insert(plain), Err(JWTError::SchemaError)));
    assert_eq!(cs.encode_str(), "{\"foo:bar\":null}");
}

#[test]
fn get_finds_each_claim_by_its_name_text() {
    let cs = ClaimSet::decode_str("{\"iss\": \"joe\", \"http://example.com/r\": [1, 2], \"x\": null}")
        .unwrap();
    let iss = cs.get("iss").unwrap();
    assert!(matches!(iss.claim_type, ClaimType::Registered));
    assert_eq!(iss.claim_value, "joe");
    let uri = cs.get("http://example.com/r").unwrap();
    assert!(matches!(uri.claim_type, ClaimType::Public));
    assert!(matches!(uri.claim_name, StringOrURI::URI(_)));
    assert_eq!(uri.claim_value, Value::Array(vec![Value::from(1), Value::from(2)]));
    let x = cs.get("x").unwrap();
    assert!(matches!(x.claim_type, ClaimType::Private));
    assert_eq!(x.claim_value, Value::Null);
    assert!(matches!(cs.get("y"), Err(JWTError::SchemaError)));
    assert!(matches!(cs.get("is"), Err(JWTError::SchemaError)));
    assert!(matches!(cs.get(""), Err(JWTError::SchemaError)));
}

#[test]
fn a_text_that_is_no_json_object_is_a_parse_error() {
    for input in ["", "{", "[1, 2]", "\"a\"", "7", "null", "{\"a\": }", "{\"a\": 1} x"] {
        assert!(matches!(ClaimSet::decode_str(input), Err(JWTError::ParseError(_))));
    }
    match ClaimSet::decode_str("{") {
        Err(JWTError::ParseError(cause)) => {
            assert_eq!(cause, "EOF while parsing an object at line 1 column 1")
        }
        other => panic!("expected a parse error, got {:?}", other),
    }
}

#[test]
fn a_key_with_a_colon_that_is_no_uri_fails_the_whole_set() {
    match ClaimSet::decode_str("{\"a\": 1, \":foo\": \"x\", \"b\": 2}") {
        Err(JWTError::ParseError(cause)) => assert_eq!(cause, "relative URL without a base"),
        other => panic!("expected a parse error, got {:?}", other),
    }
}

#[test]
fn a_key_that_ends_in_a_colon_is_never_a_private_claim() {
    match ClaimSet::decode_str("{\"foo:\": \"x\"}") {
        Err(error) => assert!(matches!(error, JWTError::ParseError(_))),
        Ok(cs) => {
            let claim = cs.get("foo:").unwrap();
            assert!(matches!(claim.claim_type, ClaimType::Public));
            assert!(matches!(claim.claim_name, StringOrURI::URI(_)));
        }
    }
}

#[test]
fn two_keys_that_are_one_uri_are_a_schema_error() {
    let input = "{\"HTTP://EXAMPLE.com\": 1, \"http://example.com/\": 2}";
    assert!(matches!(ClaimSet::decode_str(input), Err(JWTError::SchemaError)));
}

#[test]
fn members_are_made_claims_one_by_one() {
    let members = vec![
        (String::from("b"), Value::from(2)),
        (String::from("a"), Value::from(1)),
    ];
    let cs = ClaimSet::from_members(members).unwrap();
    assert_eq!(cs.encode_str(), "{\"b\":2,\"a\":1}");
    let twice = vec![
        (String::from("a"), Value::from(1)),
        (String::from("a"), Value::from(1)),
    ];
    assert!(matches!(ClaimSet::from_members(twice), Err(JWTError::SchemaError)));
    let first_failure = vec![
        (String::from("a"), Value::from(1)),
        (String::from(":x"), Value::from(1)),
        (String::from("a"), Value::from(1)),
    ];
    assert!(matches!(ClaimSet::from_members(first_failure), Err(JWTError::ParseError(_))));
    let first_failure = vec![
        (String::from("a"), Value::from(1)),
        (String::from("a"), Value::from(1)),
        (String::from(":x"), Value::from(1)),
    ];
    assert!(matches!(ClaimSet::from_members(first_failure), Err(JWTError::SchemaError)));
    assert_eq!(ClaimSet::from_members(Vec::new()).unwrap().encode_str(), "{}");
}

#[test]
fn a_written_set_reads_back_to_the_same_names_and_values() {
    let mut cs = ClaimSet::new();
    let mut nested = serde_json::Map::new();
    nested.insert(String::from("deep"), Value::Array(vec![text("x"), Value::Bool(false)]));
    cs.insert(Claim::parse(String::from("zeta"), Value::Object(nested)).unwrap()).unwrap();
    cs.insert(Claim::parse(String::from("iss"), text("joe")).unwrap()).unwrap();
    cs.insert(Claim::parse(String::from("http://example.com/is_root"), Value::Bool(true)).unwrap())
        .unwrap();
    cs.insert(Claim::parse(String::from("exp"), Value::from(1300819380)).unwrap()).unwrap();
    cs.insert(Claim::parse(String::from(""), Value::Null).unwrap()).unwrap();
    let written = cs.encode_str();
    let read = ClaimSet::decode_str(&written).unwrap();
    for name in ["zeta", "iss", "http://example.com/is_root", "exp", ""] {
        let ours = cs.get(name).unwrap();
        let theirs = read.get(name).unwrap();
        assert_eq!(ours.claim_name.as_str(), theirs.claim_name.as_str());
        assert_eq!(ours.claim_value, theirs.claim_value);
    }
    assert_eq!(read.encode_str().len(), written.len());
    let again = ClaimSet::decode_str(&read.encode_str()).unwrap();
    assert_eq!(again.encode_str(), read.encode_str());
    let through_b64 = ClaimSet::decode_b64(&cs.encode_b64()).unwrap();
    assert_eq!(through_b64.encode_str(), read.encode_str());
}

#[test]
fn base64_that_is_malformed_is_a_parse_error() {
    match ClaimSet::decode_b64("e30=e") {
        Err(JWTError::ParseError(cause)) => {
            assert_eq!(cause, "Encoded text cannot have a 6-bit remainder.")
        }
        other => panic!("expected a parse error, got {:?}", other),
    }
    match ClaimSet::decode_b64("e3*=") {
        Err(JWTError::ParseError(cause)) => assert_eq!(cause, "Invalid byte 42, offset 2."),
        other => panic!("expected a parse error, got {:?}", other),
    }
}

#[test]
fn base64_of_bytes_that_are_no_utf8_is_a_parse_error() {
    match ClaimSet::decode_b64("/w==") {
        Err(JWTError::ParseError(cause)) => {
            assert_eq!(cause, "invalid utf-8 sequence of 1 bytes from index 0")
        }
        other => panic!("expected a parse error, got {:?}", other),
    }
}

#[test]
fn base64_of_text_that_is_no_json_is_a_parse_error() {
    assert!(matches!(ClaimSet::decode_b64("Zm9v"), Err(JWTError::ParseError(_))));
    assert!(matches!(ClaimSet::decode_b64(""), Err(JWTError::ParseError(_))));
}

#[test]
fn base64_is_read_as_text_by_the_helpers() {
    assert_eq!(jwt::b64::encode_text("{}"), "e30=");
    assert_eq!(jwt::b64::encode_text(""), "");
    assert_eq!(jwt::b64::encode_text("\u{e9}"), "w6k=");
    assert_eq!(jwt::b64::decode_text("e30=").unwrap(), "{}");
    assert_eq!(jwt::b64::decode_text("w6k=").unwrap(), "\u{e9}");
    assert_eq!(jwt::b64::text_from_decoded(Ok(vec![104, 105])).unwrap(), "hi");
    match jwt::b64::text_from_decoded(Err(String::from("bad"))) {
        Err(JWTError::ParseError(cause)) => assert_eq!(cause, "bad"),
        other => panic!("expected a parse error, got {:?}", other),
    }
    assert!(matches!(
        jwt::b64::text_from_decoded(Ok(vec![0xc3])),
        Err(JWTError::ParseError(_))
    ));
}

#[test]
fn each_error_has_its_sentence() {
    assert_eq!(
        JWTError::ParseError(String::from("oops")).message(),
        "Invalid JSON, parsing failed with:\noops"
    );
    assert_eq!(JWTError::SchemaError.message(), "Schema error!");
    assert_eq!(JWTError::NotImplementedError.message(), "Not implemented.");
}

#[test]
fn texts_are_compared_and_searched_by_character() {
    assert!(jwt::text::same_text("", ""));
    assert!(jwt::text::same_text("a\u{e9}b", "a\u{e9}b"));
    assert!(!jwt::text::same_text("a", "b"));
    assert!(!jwt::text::same_text("a", "ab"));
    assert!(!jwt::text::same_text("ab", "a"));
    assert!(jwt::text::has_char("a:b", ':'));
    assert!(jwt::text::has_char(":", ':'));
    assert!(!jwt::text::has_char("", ':'));
    assert!(!jwt::text::has_char("ab;", ':'));
    assert!(jwt::text::has_char("\u{e9}\u{4e2d}", '\u{4e2d}'));
}

#[test]
fn a_name_is_described_with_its_form() {
    assert_eq!(StringOrURI::parse(String::from("foo")).unwrap().describe(), "String(foo)");
    assert_eq!(StringOrURI::parse(String::from("foo:bar")).unwrap().describe(), "URI(foo:bar)");
    assert_eq!(StringOrURI::new_string().describe(), "String()");
}

#[test]
fn the_claims_of_a_set_are_listed_in_the_order_of_insertion() {
    let mut cs = ClaimSet::new();
    assert!(cs.claims().is_empty());
    cs.insert(Claim::parse(String::from("b"), Value::from(2)).unwrap()).unwrap();
    cs.insert(Claim::parse(String::from("a"), Value::from(1)).unwrap()).unwrap();
    assert!(cs.insert(Claim::parse(String::from("b"), Value::from(3)).unwrap()).is_err());
    let names: Vec<&str> = cs.claims().iter().map(|c| c.claim_name.as_str()).collect();
    assert_eq!(names, vec!["b", "a"]);
    assert_eq!(cs.claims()[0].claim_value, 2);
}

#[test]
fn ordinary_texts_fit_their_base64() {
    assert!(jwt::b64::text_fits(""));
    assert!(jwt::b64::text_fits("{}"));
    assert!(jwt::b64::text_fits(&"x".repeat(100_000)));
}

#[test]
fn a_name_is_written_as_it_is_even_where_json_would_escape_it() {
    let mut cs = ClaimSet::new();
    cs.insert(Claim::parse(String::from("a\"b"), Value::from(1)).unwrap()).unwrap();
    assert_eq!(cs.encode_str(), "{\"a\"b\":1}");
    assert!(matches!(ClaimSet::decode_str(&cs.encode_str()), Err(JWTError::ParseError(_))));
}
