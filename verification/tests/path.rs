use qhttp::util::path::{PathElement, PathParser, PathParserError, PathValue};

#[test]
fn path_parser_parse_fail_on_empty_string() {
    assert!(PathParser::from_str("").is_err());
}

#[test]
fn path_parser_parse_fail_on_no_slash_at_beginning() {
    assert!(PathParser::from_str("s").is_err());
}

#[test]
fn path_parser_parse_fail_on_non_closed_variable() {
    assert!(PathParser::from_str("/{").is_err());
    assert!(PathParser::from_str("/{lol").is_err());
    assert!(PathParser::from_str("/{lol}{").is_err());
    assert!(PathParser::from_str("/{lol}/{").is_err());
    assert!(PathParser::from_str("/{lol}/folder{").is_err());
    assert!(PathParser::from_str("/{lol}/folder/{").is_err());
}

#[test]
fn path_parser_parse_fail_on_not_opened_variable() {
    assert!(PathParser::from_str("/}").is_err());
    assert!(PathParser::from_str("/lol}").is_err());
    assert!(PathParser::from_str("/lol/}").is_err());
    assert!(PathParser::from_str("/{lol}/folder}").is_err());
    assert!(PathParser::from_str("/{lol}/folder/}").is_err());
}

#[test]
fn path_parser_parse_fail_on_doubly_opened_variable() {
    assert!(PathParser::from_str("/{{").is_err());
    assert!(PathParser::from_str("/{{}").is_err());
    assert!(PathParser::from_str("/{lol{").is_err());
    assert!(PathParser::from_str("/{lol{}").is_err());
    assert!(PathParser::from_str("/{lol{path}").is_err());
    assert!(PathParser::from_str("/{lol{path}}").is_err());
    assert!(PathParser::from_str("/{lol}/folder{{}").is_err());
    assert!(PathParser::from_str("/{lol}/folder/{{}").is_err());
}

#[test]
fn path_parser_parse_fail_on_no_seperator() {
    assert!(PathParser::from_str("/{var1}{var2}").is_err());
    assert!(PathParser::from_str("/path{var1}{var2}").is_err());
    assert!(PathParser::from_str("/{var1}/{var2}{var3}").is_err());
    assert!(PathParser::from_str("/{var1}/path{var2}{var3}").is_err());
    assert!(PathParser::from_str("/{var1}/path/{var2}{var3}").is_err());
}

#[test]
fn path_parser_parse_fail_on_empty_variable_name() {
    assert!(PathParser::from_str("/{}").is_err());
    assert!(PathParser::from_str("/{var1}{}").is_err());
    assert!(PathParser::from_str("/{}{var2}").is_err());
    assert!(PathParser::from_str("/path{}{var2}").is_err());
    assert!(PathParser::from_str("/{var1}/{}{var3}").is_err());
    assert!(PathParser::from_str("/{var1}/path{}{var3}").is_err());
    assert!(PathParser::from_str("/{var1}/path/{}{}").is_err());
}

#[test]
fn path_parser_parse_fail_on_double_variable_name() {
    assert!(PathParser::from_str("/{var1}{var1}").is_err());
    assert!(PathParser::from_str("/path{var1}{var1}").is_err());
    assert!(PathParser::from_str("/{var1}/{var2}{var1}").is_err());
    assert!(PathParser::from_str("/{var1}/path{var1}{var3}").is_err());
    assert!(PathParser::from_str("/{var1}/path/{var2}{var1}").is_err());
}

#[test]
fn path_parser_parse_fail_on_variable_name_with_slash() {
    assert!(PathParser::from_str("/{var/1}{var2}").is_err());
    assert!(PathParser::from_str("/{var1}{va/r2}").is_err());
    assert!(PathParser::from_str("/{var/1}{va/r2}").is_err());
    assert!(PathParser::from_str("/path{va/r1}{var2}").is_err());
    assert!(PathParser::from_str("/path{var1}{va/r2}").is_err());
    assert!(PathParser::from_str("/path{va/r1}{va/r2}").is_err());
    assert!(PathParser::from_str("/{va/r1}/{var2}{var3}").is_err());
    assert!(PathParser::from_str("/{var1}/path{var2/}{var3}").is_err());
    assert!(PathParser::from_str("/{var1}/path/{var2}{/var3}").is_err());
}

#[test]
fn path_parser_parse_fixed() {
    let parser = PathParser::from_str("/home/user1").unwrap();

    let elements = vec![
        PathElement::Fixed("/home/user1".into()),
    ];

    let compare = PathParser{elements};

    assert_eq!(parser, compare);

    assert!(PathParser::from_str("/").is_ok());
}

#[test]
fn path_parser_parse_simple() {
    let parser = PathParser::from_str("/home/{user}").unwrap();

    let elements = vec![
        PathElement::Fixed("/home/".into()),
        PathElement::Variable("user".into())
    ];

    let compare = PathParser{elements};

    assert_eq!(parser, compare);
}

#[test]
fn path_parser_parse_long() {
    let parser = PathParser::from_str("/home/{user}/folder{folderid}").unwrap();

    let elements = vec![
        PathElement::Fixed("/home/".into()),
        PathElement::Variable("user".into()),
        PathElement::Fixed("/folder".into()),
        PathElement::Variable("folderid".into()),
    ];

    let compare = PathParser{elements};

    assert_eq!(parser, compare);
}

#[test]
fn path_parser_parse_path() {
    let parser = PathParser::from_str("/home/{user}/folder{folderid}").unwrap();

    let parsed = parser.parse("/home/alfred/folder123").unwrap();

    let mut compare = serde_json::Map::new();
    compare.insert("user".into(), serde_json::Value::from("alfred"));
    compare.insert("folderid".into(), serde_json::Value::from(123u64));

    assert_eq!(parsed, compare);
}

#[test]
fn path_parser_parse_path_full() {
    let parser = PathParser::from_str("/{path}/u{user}/{active}_{banned}0{null}/{rest}").unwrap();

    let parsed = parser.parse("/home/u123/true_false0null/folder/file").unwrap();

    let mut compare = serde_json::Map::new();
    compare.insert("path".into(), serde_json::Value::from("home"));
    compare.insert("user".into(), serde_json::Value::from(123u64));
    compare.insert("active".into(), serde_json::Value::from(true));
    compare.insert("banned".into(), serde_json::Value::from(false));
    compare.insert("null".into(), serde_json::Value::Null);
    compare.insert("rest".into(), serde_json::Value::from("folder"));

    assert_eq!(parsed, compare);
}

#[test]
fn path_parser_reads_numbers_as_they_are_written() {
    let parser = PathParser::from_str("/{a}/{b}").unwrap();
    let parsed = parser.parse("/-7/2.5").unwrap();
    assert_eq!(parsed["a"], serde_json::Value::from(-7i64));
    assert_eq!(parsed["b"], serde_json::Value::from(2.5f64));
    let parsed = parser.parse("/007/12x").unwrap();
    assert_eq!(parsed["a"], serde_json::Value::from("007"));
    assert_eq!(parsed["b"], serde_json::Value::from("12x"));
}

#[test]
fn path_parser_refuses_a_path_with_another_fixed_part() {
    let parser = PathParser::from_str("/home/{user}").unwrap();
    assert!(parser.parse("/root/alfred").is_err());
    assert!(parser.parse("/home/alfred").is_ok());
}

#[test]
fn path_parser_lists_its_elements() {
    let parser = PathParser::from_str("/a/{b}").unwrap();
    assert_eq!(parser.elements().len(), 2);
    assert_eq!(parser.elements()[0].as_ref(), "/a/");
    assert_eq!(parser.elements()[1].as_ref(), "b");
    assert_eq!(parser.elements()[0], PathElement::Fixed("/a/".into()));
}

#[test]
fn path_values_are_classified() {
    assert_eq!(PathValue::classify("null".into(), false), PathValue::Null);
    assert_eq!(PathValue::classify("true".into(), false), PathValue::Bool(true));
    assert_eq!(PathValue::classify("false".into(), false), PathValue::Bool(false));
    assert_eq!(PathValue::classify("12".into(), true), PathValue::Number("12".into()));
    assert_eq!(PathValue::classify("12".into(), false), PathValue::Text("12".into()));
}

#[test]
fn path_parser_reports_why_a_path_does_not_fit() {
    let parser = PathParser::from_str("/home/{user}_{id}").unwrap();
    assert_eq!(parser.parse("/root/a_1").unwrap_err(), PathParserError::Internal);
    assert_eq!(parser.parse("/home/a/b_1").unwrap_err(), PathParserError::InvalidSlash);
    assert_eq!(parser.parse("/home/alfred").unwrap_err(), PathParserError::UnexpectedEndOfPath);
    assert_eq!(parser.parse("/home/").unwrap_err(), PathParserError::UnexpectedEndOfPath);
    assert_eq!(parser.parse("").unwrap_err(), PathParserError::UnexpectedEndOfPath);
    let parser = PathParser::from_str("/home/{user}").unwrap();
    assert_eq!(parser.parse("/home/").unwrap_err(), PathParserError::UnexpectedEndOfPath);
    assert_eq!(parser.parse("/home/a").unwrap().len(), 1);
}

#[test]
fn path_template_is_the_written_form_of_its_elements() {
    let text = "/home/{user}/folder{folderid}/x";
    let parser = PathParser::from_str(text).unwrap();
    let mut written = String::new();
    for element in parser.elements() {
        match element {
            PathElement::Fixed(fixed) => written.push_str(fixed),
            PathElement::Variable(name) => {
                written.push('{');
                written.push_str(name);
                written.push('}');
            }
        }
    }
    assert_eq!(written, text);
}
