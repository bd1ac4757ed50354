use argparse::{ArgError, FlagArg, FlagArgBase, KVArg, KVArgBase, Parser, PosArg, PosArgBase};

fn argv(tokens: &[&str]) -> Vec<String> {
    let mut v = vec!["".to_string()];
    for t in tokens {
        v.push(t.to_string());
    }
    v
}

#[test]
fn it_works() {
    let kv = KVArg::<i32>::new("first".to_string(), Some('f'), "first argument".to_string());
    let mut parser = Parser::new();
    parser.add_kv_arg(&kv).unwrap();

    let args = vec!["".to_string(), "-f".to_string(), "42".to_string()];

    parser.parse_vec(args).unwrap();

    assert!(kv.val(&mut parser).unwrap() == 42);
}

#[test]
fn duplicate_positional_name_fails_and_leaves_registry() {
    let a = PosArg::<String>::new("path".to_string(), "input".to_string());
    let b = PosArg::<i32>::new("path".to_string(), "again".to_string());
    let mut parser = Parser::new();
    assert_eq!(parser.add_pos_arg(&a), Ok(()));
    assert_eq!(parser.add_pos_arg(&b), Err(ArgError::DuplicatePositional));
    // still exactly one slot, holding a text value
    assert_eq!(
        parser.parse_vec(argv(&["x", "y"])),
        Err(ArgError::TooManyPositional { index: 2 })
    );
    assert_eq!(parser.parse_vec(argv(&["in.txt"])), Ok(()));
    assert_eq!(a.val(&mut parser), Some("in.txt".to_string()));
}

#[test]
fn one_character_long_name_fails() {
    let mut parser = Parser::new();
    let kv = KVArg::<i32>::new("n".to_string(), None, "".to_string());
    assert_eq!(parser.add_kv_arg(&kv), Err(ArgError::NameTooShort));
    let fl = FlagArg::new("v".to_string(), "".to_string(), None);
    assert_eq!(parser.add_flag_arg(&fl), Err(ArgError::NameTooShort));
    let empty = FlagArg::new("".to_string(), "".to_string(), Some('e'));
    assert_eq!(parser.add_flag_arg(&empty), Err(ArgError::NameTooShort));
}

#[test]
fn positional_key_value_and_flag_together() {
    let path = PosArg::<String>::new("path".to_string(), "input file".to_string());
    let count = KVArg::<i32>::new("count".to_string(), Some('c'), "how many".to_string());
    let verbose = FlagArg::new("verbose".to_string(), "talk more".to_string(), Some('v'));
    let mut parser = Parser::new();
    parser.add_pos_arg(&path).unwrap();
    parser.add_kv_arg(&count).unwrap();
    parser.add_flag_arg(&verbose).unwrap();
    assert_eq!(parser.parse_vec(argv(&["in.txt", "-c", "5", "-v"])), Ok(()));
    assert_eq!(path.val(&mut parser), Some("in.txt".to_string()));
    assert_eq!(count.val(&mut parser), Some(5));
    assert!(verbose.found(&parser));
}

#[test]
fn value_is_handed_out_once() {
    let kv = KVArg::<i32>::new("first".to_string(), Some('f'), "first argument".to_string());
    let mut parser = Parser::new();
    parser.add_kv_arg(&kv).unwrap();
    assert_eq!(parser.parse_vec(argv(&["-f", "42"])), Ok(()));
    assert!(kv.found(&parser));
    assert_eq!(kv.val(&mut parser), Some(42));
    assert_eq!(kv.val(&mut parser), None);
    assert!(!kv.found(&parser));
}

#[test]
fn positional_value_is_handed_out_once() {
    let p = PosArg::<u32>::new("n".to_string(), "".to_string());
    let mut parser = Parser::new();
    parser.add_pos_arg(&p).unwrap();
    assert_eq!(parser.parse_vec(argv(&["7"])), Ok(()));
    assert!(p.found(&parser));
    assert_eq!(p.val(&mut parser), Some(7));
    assert_eq!(p.val(&mut parser), None);
}

#[test]
fn repeated_key_fails_on_second_occurrence() {
    let name = KVArg::<String>::new("name".to_string(), None, "".to_string());
    let mut parser = Parser::new();
    parser.add_kv_arg(&name).unwrap();
    assert_eq!(
        parser.parse_vec(argv(&["--name", "x", "--name", "y"])),
        Err(ArgError::DuplicateKey { index: 3 })
    );
    // a failed match leaves the registry as it was
    assert!(!name.found(&parser));
}

#[test]
fn repeated_flag_fails() {
    let v = FlagArg::new("verbose".to_string(), "".to_string(), Some('v'));
    let mut parser = Parser::new();
    parser.add_flag_arg(&v).unwrap();
    assert_eq!(
        parser.parse_vec(argv(&["-v", "--verbose"])),
        Err(ArgError::DuplicateKey { index: 2 })
    );
}

#[test]
fn flag_consumes_no_token() {
    let verbose = FlagArg::new("verbose".to_string(), "".to_string(), None);
    let file = PosArg::<String>::new("file".to_string(), "".to_string());
    let mut parser = Parser::new();
    parser.add_flag_arg(&verbose).unwrap();
    parser.add_pos_arg(&file).unwrap();
    assert_eq!(parser.parse_vec(argv(&["--verbose", "file.txt"])), Ok(()));
    assert!(verbose.found(&parser));
    assert_eq!(file.val(&mut parser), Some("file.txt".to_string()));
}

#[test]
fn too_many_positional_tokens_fail() {
    let a = PosArg::<String>::new("a".to_string(), "".to_string());
    let mut parser = Parser::new();
    parser.add_pos_arg(&a).unwrap();
    assert_eq!(
        parser.parse_vec(argv(&["one", "two"])),
        Err(ArgError::TooManyPositional { index: 2 })
    );
    let mut empty = Parser::new();
    assert_eq!(
        empty.parse_vec(argv(&["x"])),
        Err(ArgError::TooManyPositional { index: 1 })
    );
}

#[test]
fn unknown_key_fails() {
    let kv = KVArg::<i32>::new("count".to_string(), Some('c'), "".to_string());
    let mut parser = Parser::new();
    parser.add_kv_arg(&kv).unwrap();
    assert_eq!(
        parser.parse_vec(argv(&["--bogus"])),
        Err(ArgError::UnknownKey { index: 1 })
    );
    assert_eq!(
        parser.parse_vec(argv(&["-"])),
        Err(ArgError::UnknownKey { index: 1 })
    );
    assert_eq!(
        parser.parse_vec(argv(&["--"])),
        Err(ArgError::UnknownKey { index: 1 })
    );
}

#[test]
fn conversion_failure_is_silent() {
    let kv = KVArg::<i32>::new("first".to_string(), Some('f'), "".to_string());
    let mut parser = Parser::new();
    parser.add_kv_arg(&kv).unwrap();
    assert_eq!(parser.parse_vec(argv(&["-f", "abc"])), Ok(()));
    assert!(!kv.found(&parser));
    assert_eq!(kv.val(&mut parser), None);
    // not found, so the key may be supplied again
    assert_eq!(parser.parse_vec(argv(&["-f", "9"])), Ok(()));
    assert_eq!(kv.val(&mut parser), Some(9));
}

#[test]
fn missing_value_fails() {
    let kv = KVArg::<i32>::new("count".to_string(), Some('c'), "".to_string());
    let mut parser = Parser::new();
    parser.add_kv_arg(&kv).unwrap();
    assert_eq!(
        parser.parse_vec(argv(&["-c"])),
        Err(ArgError::MissingValue { index: 1 })
    );
}

#[test]
fn value_token_is_taken_verbatim() {
    let kv = KVArg::<String>::new("name".to_string(), Some('n'), "".to_string());
    let fl = FlagArg::new("verbose".to_string(), "".to_string(), Some('v'));
    let mut parser = Parser::new();
    parser.add_kv_arg(&kv).unwrap();
    parser.add_flag_arg(&fl).unwrap();
    assert_eq!(parser.parse_vec(argv(&["-n", "--verbose"])), Ok(()));
    assert_eq!(kv.val(&mut parser), Some("--verbose".to_string()));
    assert!(!fl.found(&parser));
}

#[test]
fn long_and_short_forms_share_one_table() {
    let kv = KVArg::<i64>::new("count".to_string(), Some('c'), "".to_string());
    let mut parser = Parser::new();
    parser.add_kv_arg(&kv).unwrap();
    assert_eq!(parser.parse_vec(argv(&["--c", "-12"])), Ok(()));
    assert_eq!(kv.val(&mut parser), Some(-12));
    assert_eq!(parser.parse_vec(argv(&["-count", "+3"])), Ok(()));
    assert_eq!(kv.val(&mut parser), Some(3));
}

#[test]
fn key_collisions_fail() {
    let count = KVArg::<i32>::new("count".to_string(), Some('c'), "".to_string());
    let mut parser = Parser::new();
    parser.add_kv_arg(&count).unwrap();
    let same_name = FlagArg::new("count".to_string(), "".to_string(), None);
    assert_eq!(parser.add_flag_arg(&same_name), Err(ArgError::NameTaken));
    let same_alias = FlagArg::new("clear".to_string(), "".to_string(), Some('c'));
    assert_eq!(parser.add_flag_arg(&same_alias), Err(ArgError::AliasTaken));
    let kv_alias = KVArg::<u64>::new("cap".to_string(), Some('c'), "".to_string());
    assert_eq!(parser.add_kv_arg(&kv_alias), Err(ArgError::AliasTaken));
    // the rejected flag left no key behind
    let clear = FlagArg::new("clear".to_string(), "".to_string(), Some('x'));
    assert_eq!(parser.add_flag_arg(&clear), Ok(()));
    assert_eq!(
        parser.parse_vec(argv(&["-c", "1", "-x"])),
        Ok(())
    );
    assert!(clear.found(&parser));
}

#[test]
fn integer_edges() {
    let small = KVArg::<i32>::new("small".to_string(), None, "".to_string());
    let unsigned = KVArg::<u32>::new("unsigned".to_string(), None, "".to_string());
    let wide = KVArg::<u64>::new("wide".to_string(), None, "".to_string());
    let size = KVArg::<usize>::new("size".to_string(), None, "".to_string());
    let mut parser = Parser::new();
    parser.add_kv_arg(&small).unwrap();
    parser.add_kv_arg(&unsigned).unwrap();
    parser.add_kv_arg(&wide).unwrap();
    parser.add_kv_arg(&size).unwrap();
    let cases: Vec<(&str, Option<i32>)> = vec![
        ("-2147483648", Some(i32::MIN)),
        ("2147483647", Some(i32::MAX)),
        ("2147483648", None),
        ("-2147483649", None),
        ("007", Some(7)),
        ("-0", Some(0)),
        ("+", None),
        ("-", None),
        ("", None),
        ("1 ", None),
        ("1e3", None),
    ];
    for (tok, want) in cases {
        parser.parse_vec(argv(&["--small", tok])).unwrap();
        assert_eq!(small.val(&mut parser), want, "token {:?}", tok);
        assert_eq!(tok.parse::<i32>().ok(), want, "token {:?}", tok);
    }
    parser.parse_vec(argv(&["--unsigned", "-0"])).unwrap();
    assert_eq!(unsigned.val(&mut parser), None);
    parser.parse_vec(argv(&["--unsigned", "+4294967295"])).unwrap();
    assert_eq!(unsigned.val(&mut parser), Some(u32::MAX));
    parser.parse_vec(argv(&["--wide", "18446744073709551615"])).unwrap();
    assert_eq!(wide.val(&mut parser), Some(u64::MAX));
    parser.parse_vec(argv(&["--wide", "18446744073709551616"])).unwrap();
    assert_eq!(wide.val(&mut parser), None);
    parser.parse_vec(argv(&["--size", "12"])).unwrap();
    assert_eq!(size.val(&mut parser), Some(12usize));
}

#[test]
fn empty_argv_and_program_path_only() {
    let a = PosArg::<String>::new("a".to_string(), "".to_string());
    let mut parser = Parser::new();
    parser.add_pos_arg(&a).unwrap();
    assert_eq!(parser.parse_vec(Vec::new()), Ok(()));
    assert_eq!(parser.parse_vec(vec!["prog".to_string()]), Ok(()));
    assert!(!a.found(&parser));
}

#[test]
fn descriptors_report_what_they_were_given() {
    let p = PosArg::<String>::new("path".to_string(), "input file".to_string());
    let k = KVArg::<i32>::new("count".to_string(), Some('c'), "how many".to_string());
    let f = FlagArg::new("verbose".to_string(), "talk more".to_string(), None);
    assert_eq!(PosArgBase::name(&p), "path");
    assert_eq!(PosArgBase::desc(&p), "input file");
    assert_eq!(KVArgBase::name(&k), "count");
    assert_eq!(KVArgBase::desc(&k), "how many");
    assert_eq!(KVArgBase::short_key(&k), Some('c'));
    assert_eq!(FlagArgBase::name(&f), "verbose");
    assert_eq!(FlagArgBase::desc(&f), "talk more");
    assert_eq!(FlagArgBase::short_key(&f), None);
}

#[test]
fn positional_slots_fill_in_order() {
    let first = PosArg::<String>::new("first".to_string(), "".to_string());
    let second = PosArg::<i32>::new("second".to_string(), "".to_string());
    let mut parser = Parser::new();
    parser.add_pos_arg(&first).unwrap();
    parser.add_pos_arg(&second).unwrap();
    assert_eq!(parser.parse_vec(argv(&["a", "oops"])), Ok(()));
    assert_eq!(first.val(&mut parser), Some("a".to_string()));
    assert!(!second.found(&parser));
    assert_eq!(parser.parse_vec(argv(&["b", "-5"])), Err(ArgError::UnknownKey { index: 2 }));
}
