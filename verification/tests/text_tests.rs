use libconfig::config::{Config, Errors};
use libconfig::node::OptionType;
use libconfig::reader::OptionReader;

#[test]
fn parse_nested_groups_scenario() {
    let mut cfg = Config::new();
    assert!(cfg.load_from_string("root = { a = 1; b = { c = \"hi\"; } };").is_ok());
    assert_eq!(
        cfg.value("root.b.c").unwrap().as_string(&cfg),
        Some(String::from("hi"))
    );
    assert_eq!(cfg.value("root.a").unwrap().as_int32_default(&cfg, -1), 1);
    let missing = cfg.value("root.missing").unwrap_or(OptionReader::new(None));
    assert_eq!(missing.as_int32_default(&cfg, -1), -1);
}

#[test]
fn write_save_reload_scenario() {
    let mut cfg = Config::new();
    let root = cfg.create_section("root").unwrap();
    root.write_int32(&mut cfg, "n", 42).unwrap();
    let text = cfg.save_to_string();
    let mut fresh = Config::new();
    assert!(fresh.load_from_string(&text).is_ok());
    assert_eq!(fresh.value("root.n").unwrap().as_int32(&fresh), Some(42));
}

#[test]
fn round_trip_of_writer_built_tree() {
    let mut cfg = Config::new();
    let root = cfg.create_section("root").unwrap();
    root.write_int32(&mut cfg, "i", -17).unwrap();
    root.write_int64(&mut cfg, "l", 5000000000i64).unwrap();
    root.write_bool(&mut cfg, "t", true).unwrap();
    root.write_bool(&mut cfg, "f", false).unwrap();
    root.write_string(&mut cfg, "s", "a \"quoted\"\nline\twith \\ stuff").unwrap();
    root.write_float(&mut cfg, "x", "3.25e-2").unwrap();
    let sub = root.create_section(&mut cfg, "sub").unwrap();
    sub.write_int32(&mut cfg, "inner", 0).unwrap();
    let arr = root.create_array(&mut cfg, "arr").unwrap();
    arr.write_int32(&mut cfg, "", 1).unwrap();
    arr.write_int32(&mut cfg, "", 2).unwrap();
    arr.write_int32(&mut cfg, "", 3).unwrap();
    let lst = root.create_list(&mut cfg, "lst").unwrap();
    lst.write_string(&mut cfg, "", "mixed").unwrap();
    lst.write_bool(&mut cfg, "", false).unwrap();
    let gl = lst.create_section(&mut cfg, "").unwrap();
    gl.write_int32(&mut cfg, "deep", 8).unwrap();

    let text = cfg.save_to_string();
    let mut back = Config::new();
    assert!(back.load_from_string(&text).is_ok(), "reparse failed on: {}", text);
    // serializing the reparsed tree gives the same text: same shape,
    // names, order and values
    assert_eq!(back.save_to_string(), text);
    // and the values read back identically
    assert_eq!(back.value("root.i").unwrap().as_int32(&back), Some(-17));
    assert_eq!(back.value("root.l").unwrap().as_int64(&back), Some(5000000000i64));
    assert_eq!(back.value("root.t").unwrap().as_bool(&back), Some(true));
    assert_eq!(back.value("root.f").unwrap().as_bool(&back), Some(false));
    assert_eq!(
        back.value("root.s").unwrap().as_string(&back),
        Some(String::from("a \"quoted\"\nline\twith \\ stuff"))
    );
    assert_eq!(
        back.value("root.x").unwrap().as_float_text(&back),
        Some(String::from("3.25e-2"))
    );
    assert_eq!(back.value("root.arr.2").unwrap().as_int32(&back), Some(3));
    assert_eq!(back.value("root.lst.0").unwrap().as_string(&back), Some(String::from("mixed")));
    assert_eq!(back.value("root.lst.2.deep").unwrap().as_int32(&back), Some(8));
}

#[test]
fn round_trip_of_empty_containers() {
    let mut cfg = Config::new();
    let root = cfg.create_section("root").unwrap();
    root.create_section(&mut cfg, "g").unwrap();
    root.create_array(&mut cfg, "a").unwrap();
    root.create_list(&mut cfg, "l").unwrap();
    let text = cfg.save_to_string();
    let mut back = Config::new();
    assert!(back.load_from_string(&text).is_ok(), "reparse failed on: {}", text);
    assert_eq!(back.save_to_string(), text);
    assert_eq!(back.value("root.g").unwrap().is_section(&back), Some(true));
    assert_eq!(back.value("root.a").unwrap().is_array(&back), Some(true));
    assert_eq!(back.value("root.l").unwrap().is_list(&back), Some(true));
}

#[test]
fn parse_failure_clears_the_document() {
    let mut cfg = Config::new();
    assert!(cfg.load_from_string("root = { a = 1; };").is_ok());
    assert!(cfg.value("root.a").is_some());
    assert_eq!(cfg.load_from_string("root = { a = ; };"), Err(Errors::ParseError));
    // no partial tree is retained
    assert!(cfg.value("root").is_none());
    assert!(cfg.value("root.a").is_none());
}

#[test]
fn parse_rejects_duplicates_and_mixed_arrays() {
    let mut cfg = Config::new();
    assert_eq!(cfg.load_from_string("a = 1; a = 2;"), Err(Errors::ParseError));
    assert_eq!(cfg.load_from_string("a = [1, \"x\"];"), Err(Errors::ParseError));
    assert_eq!(cfg.load_from_string("a = [1, 2L];"), Err(Errors::ParseError));
    assert_eq!(cfg.load_from_string("a = { b = [ { } ]; };"), Err(Errors::ParseError));
    assert!(cfg.load_from_string("a = [1, 2]; b = (3, \"y\", ());").is_ok());
}

#[test]
fn parse_accepts_comments_and_separators() {
    let mut cfg = Config::new();
    let text = "# leading comment\nwin : { // one\n size = 10, /* block\n comment */ pos = 2; };";
    assert!(cfg.load_from_string(text).is_ok());
    assert_eq!(cfg.value("win.size").unwrap().as_int32(&cfg), Some(10));
    assert_eq!(cfg.value("win.pos").unwrap().as_int32(&cfg), Some(2));
}

#[test]
fn parse_group_without_assign() {
    let mut cfg = Config::new();
    assert!(cfg.load_from_string("app { version = 3; }").is_ok());
    assert_eq!(cfg.value("app.version").unwrap().as_int32(&cfg), Some(3));
}

#[test]
fn number_literals_take_their_width() {
    let mut cfg = Config::new();
    assert!(cfg.load_from_string(
        "a = 1; b = 321000L; c = 5000000000; d = -2147483648; e = 1.5; f = 2e10;"
    ).is_ok());
    assert_eq!(cfg.value("a").unwrap().value_type(&cfg), Some(OptionType::IntegerType));
    assert_eq!(cfg.value("b").unwrap().value_type(&cfg), Some(OptionType::Int64Type));
    assert_eq!(cfg.value("b").unwrap().as_int64(&cfg), Some(321000));
    // an integer too wide for 32 bits is promoted
    assert_eq!(cfg.value("c").unwrap().value_type(&cfg), Some(OptionType::Int64Type));
    assert_eq!(cfg.value("c").unwrap().as_int64(&cfg), Some(5000000000i64));
    assert_eq!(cfg.value("d").unwrap().as_int32(&cfg), Some(i32::MIN));
    assert_eq!(cfg.value("e").unwrap().value_type(&cfg), Some(OptionType::FloatType));
    assert_eq!(cfg.value("f").unwrap().as_float_text(&cfg), Some(String::from("2e10")));
}

#[test]
fn int64_range_limits_are_kept() {
    let mut cfg = Config::new();
    assert!(cfg.load_from_string("min = -9223372036854775808; max = 9223372036854775807;").is_ok());
    assert_eq!(cfg.value("min").unwrap().as_int64(&cfg), Some(i64::MIN));
    assert_eq!(cfg.value("max").unwrap().as_int64(&cfg), Some(i64::MAX));
    assert_eq!(cfg.load_from_string("over = 9223372036854775808;"), Err(Errors::ParseError));
}

#[test]
fn string_escapes_parse_and_serialize() {
    let mut cfg = Config::new();
    assert!(cfg.load_from_string("s = \"tab\\there\\nand \\\"quotes\\\" and \\\\\";").is_ok());
    assert_eq!(
        cfg.value("s").unwrap().as_string(&cfg),
        Some(String::from("tab\there\nand \"quotes\" and \\"))
    );
    let text = cfg.save_to_string();
    let mut back = Config::new();
    assert!(back.load_from_string(&text).is_ok());
    assert_eq!(back.save_to_string(), text);
}

#[test]
fn booleans_parse_in_both_cases() {
    let mut cfg = Config::new();
    assert!(cfg.load_from_string("a = true; b = FALSE;").is_ok());
    assert_eq!(cfg.value("a").unwrap().as_bool(&cfg), Some(true));
    assert_eq!(cfg.value("b").unwrap().as_bool(&cfg), Some(false));
}

#[test]
fn malformed_text_is_a_parse_error() {
    let mut cfg = Config::new();
    assert_eq!(cfg.load_from_string("a = {"), Err(Errors::ParseError));
    assert_eq!(cfg.load_from_string("= 1;"), Err(Errors::ParseError));
    assert_eq!(cfg.load_from_string("a = \"unterminated"), Err(Errors::ParseError));
    assert_eq!(cfg.load_from_string("a = [1, 2;"), Err(Errors::ParseError));
    assert_eq!(cfg.load_from_string("a = 1; }"), Err(Errors::ParseError));
    assert_eq!(cfg.load_from_string("a = @;"), Err(Errors::ParseError));
}

#[test]
fn empty_and_whitespace_text_parse_to_empty_root() {
    let mut cfg = Config::new();
    assert!(cfg.load_from_string("").is_ok());
    assert!(cfg.load_from_string("  \n\t # only a comment\n").is_ok());
    assert!(cfg.value("").unwrap().is_section(&cfg) == Some(true));
}

#[test]
fn float_literals_interpret_as_f64() {
    let mut cfg = Config::new();
    assert!(cfg.load_from_string("x = 321.001; y = -2.5e3;").is_ok());
    let xt = cfg.value("x").unwrap().as_float_text(&cfg).unwrap();
    assert_eq!(xt.parse::<f64>().unwrap(), 321.001);
    let yt = cfg.value("y").unwrap().as_float_text(&cfg).unwrap();
    assert_eq!(yt.parse::<f64>().unwrap(), -2500.0);
    // the literal survives a round trip untouched
    let text = cfg.save_to_string();
    let mut back = Config::new();
    assert!(back.load_from_string(&text).is_ok());
    assert_eq!(
        back.value("x").unwrap().as_float_text(&back),
        Some(String::from("321.001"))
    );
}

#[test]
fn serialized_form_is_canonical() {
    let mut cfg = Config::new();
    let root = cfg.create_section("root").unwrap();
    root.write_int32(&mut cfg, "n", 42).unwrap();
    assert_eq!(cfg.save_to_string(), "root = { n = 42; }; ");
}
