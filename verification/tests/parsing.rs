use yarn_wrapper_gen::Error;
use yarn_wrapper_gen::class::Class;
use yarn_wrapper_gen::class::Entry;
use yarn_wrapper_gen::index::Index;

#[test]
fn header_and_field_parse() {
    let c = Class::from_str("CLASS a/b/C d/e/F\nFIELD x y I;").unwrap();
    assert_eq!(c.obfuscated, vec!["a".to_string(), "b".to_string(), "C".to_string()]);
    assert_eq!(c.real_name, vec!["d".to_string(), "e".to_string(), "F".to_string()]);
    assert_eq!(c.entries.len(), 1);
}

#[test]
fn header_real_path_defaults_to_obfuscated() {
    let c = Class::from_str("CLASS a/b/C").unwrap();
    assert_eq!(c.obfuscated, c.real_name);
    let c2 = Class::from_str("CLASS a/b/C ").unwrap();
    assert_eq!(c2.real_name, vec!["a".to_string(), "b".to_string(), "C".to_string()]);
}

#[test]
fn malformed_header_is_fatal() {
    assert_eq!(Class::from_str("CLASS").unwrap_err(), (Error::MalformedHeader, 0));
    assert_eq!(Class::from_str("").unwrap_err(), (Error::MalformedHeader, 0));
}

#[test]
fn unrecognized_line_variant_is_fatal() {
    let r = Class::from_str("CLASS a b\nBOGUS something");
    assert_eq!(r.unwrap_err(), (Error::UnrecognizedLineVariant, 1));
}

#[test]
fn arg_without_method_is_fatal() {
    let r = Class::from_str("CLASS a b\nARG 0 count");
    assert_eq!(r.unwrap_err(), (Error::ArgWithoutMethod, 1));
    let r2 = Class::from_str("CLASS a b\nFIELD x y I;\nARG 0 count");
    assert_eq!(r2.unwrap_err(), (Error::ArgWithoutMethod, 2));
}

#[test]
fn unknown_descriptor_token_is_fatal() {
    let r = Class::from_str("CLASS a b\nFIELD x y Q;");
    assert_eq!(r.unwrap_err(), (Error::UnknownDescriptorToken, 2));
}

#[test]
fn ambiguous_argument_count_is_fatal() {
    let r = Class::from_str("CLASS a b\nMETHOD x m (II)V\nARG 0 first");
    assert_eq!(r.unwrap_err(), (Error::AmbiguousArgumentCount, 3));
}

#[test]
fn comment_on_field_is_rejected() {
    let mut e = Entry::field("x y I");
    assert_eq!(e.insert_comment(vec!["doc".to_string()]), Err(Error::CommentOnField));
}

#[test]
fn push_arg_on_field_is_rejected() {
    let mut e = Entry::field("x y I");
    assert_eq!(e.push_arg("0 count".to_string()), Err(Error::ArgWithoutMethod));
}

#[test]
fn method_member_building() {
    let mut e = Entry::method("obf real (I)V");
    assert!(e.is_empty());
    assert!(e.push_arg("0 count".to_string()).is_ok());
    assert!(!e.is_empty());
    assert!(Entry::not_dummy(&(e, Vec::new())));
}

#[test]
fn malformed_method_line_becomes_discarded_dummy() {
    let e = Entry::method("justonename");
    assert!(!Entry::not_dummy(&(e, Vec::new())));
    let c = Class::from_str("CLASS a b\nMETHOD justonename").unwrap();
    assert_eq!(c.entries.len(), 0);
}

#[test]
fn empty_labels_never_survive() {
    // a malformed method line and a method without declared parameters both vanish
    let c = Class::from_str("CLASS a b\nMETHOD x\nMETHOD y z (I)V").unwrap();
    for pair in &c.entries {
        assert!(Entry::not_dummy(pair));
    }
    assert_eq!(c.entries.len(), 0);
}

#[test]
fn class_line_terminates_unit() {
    let c = Class::from_str("CLASS a b\nFIELD x y I;\nCLASS c d\nFIELD q w J;").unwrap();
    assert_eq!(c.entries.len(), 1);
    assert_eq!(c.obfuscated, vec!["a".to_string()]);
}

#[test]
fn class_comment_attaches_before_first_member() {
    let c = Class::from_str("CLASS a b\nCOMMENT hello\nCOMMENT\nFIELD x y I;").unwrap();
    assert_eq!(c.comment, vec!["hello".to_string(), String::new()]);
}

#[test]
fn reparsing_is_deterministic() {
    let text = "CLASS a/b/C d/e/F\nCOMMENT top\nMETHOD m n (I)V\nARG 0 count\nCOMMENT arg doc\nFIELD x y I;";
    let c1 = Class::from_str(text).unwrap();
    let c2 = Class::from_str(text).unwrap();
    assert_eq!(c1.obfuscated, c2.obfuscated);
    assert_eq!(c1.real_name, c2.real_name);
    assert_eq!(c1.comment, c2.comment);
    assert_eq!(c1.entries.len(), c2.entries.len());
    let ix = Index::new(&Vec::new()).unwrap();
    let empty: Vec<(String, String)> = Vec::new();
    let t1 = c1.to_string(&ix, "pkg", &empty, "F");
    let t2 = c2.to_string(&ix, "pkg", &empty, "F");
    assert_eq!(t1, t2);
}

#[test]
fn index_lookup_and_overwrite() {
    let texts = vec![
        "CLASS a/b first/Real".to_string(),
        "CLASS c/d other/Real".to_string(),
        "CLASS a/b second/Real".to_string(),
    ];
    let ix = Index::new(&texts).unwrap();
    let key = vec!["a".to_string(), "b".to_string()];
    let found = ix.get(&key).unwrap();
    assert_eq!(found.real_name, vec!["second".to_string(), "Real".to_string()]);
    let found2 = ix.get_str("c/d").unwrap();
    assert_eq!(found2.real_name, vec!["other".to_string(), "Real".to_string()]);
    assert!(ix.get_str("no/such").is_none());
}

#[test]
fn index_reports_failing_unit_and_line() {
    let texts = vec!["CLASS a b".to_string(), "CLASS c d\nWHAT is this".to_string()];
    assert_eq!(Index::new(&texts).unwrap_err(), (Error::UnrecognizedLineVariant, 1, 1));
}

#[test]
fn comment_before_arg_documents_method_then_previous_parameter() {
    let text = "CLASS a b\nMETHOD x m (II)V\nCOMMENT on method\nARG 0 first\nCOMMENT on first\nARG 1 second";
    let c = Class::from_str(text).unwrap();
    assert_eq!(c.entries.len(), 1);
    let (entry, own_comment) = &c.entries[0];
    assert_eq!(own_comment, &vec!["on method".to_string()]);
    match entry {
        Entry::Method { parameters, .. } => {
            assert_eq!(parameters[0], ("first".to_string(), vec!["on first".to_string()]));
            assert_eq!(parameters[1], ("second".to_string(), Vec::new()));
        },
        _ => panic!("expected a method"),
    }
}

#[test]
fn comment_before_member_documents_the_previous_member() {
    let c = Class::from_str("CLASS a b\nFIELD x y I;\nCOMMENT doc\nFIELD p q J;").unwrap();
    assert_eq!(c.entries.len(), 2);
    assert_eq!(c.entries[0].1, vec!["doc".to_string()]);
    assert_eq!(c.entries[1].1, Vec::<String>::new());
}

#[test]
fn indented_lines_and_carriage_returns_are_accepted() {
    let c = Class::from_str("CLASS a/b/C d/e/F\r\n\tFIELD x y I;\r\n").unwrap();
    assert_eq!(c.entries.len(), 1);
    assert_eq!(c.real_name, vec!["d".to_string(), "e".to_string(), "F".to_string()]);
}
