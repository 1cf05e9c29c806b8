use libconfig::config::{Config, Errors};
use libconfig::node::OptionType;
use libconfig::reader::OptionReader;
use libconfig::writer::OptionWriter;

#[test]
fn new_document_is_empty_root() {
    let cfg = Config::new();
    let root = cfg.value("").unwrap();
    assert_eq!(root.is_section(&cfg), Some(true));
    assert!(cfg.value("anything").is_none());
}

#[test]
fn create_section_and_write_scalars() {
    let mut cfg = Config::new();
    let s = cfg.create_section("section").unwrap();
    assert!(s.write_int32(&mut cfg, "ival", 321).is_some());
    assert!(s.write_int64(&mut cfg, "lval", 321000).is_some());
    assert!(s.write_bool(&mut cfg, "bval", false).is_some());
    assert!(s.write_string(&mut cfg, "sval", "test string").is_some());
    assert!(s.write_float(&mut cfg, "fval", "321.001").is_some());
    assert_eq!(cfg.value("section.ival").unwrap().as_int32(&cfg), Some(321));
    assert_eq!(cfg.value("section.lval").unwrap().as_int64(&cfg), Some(321000));
    assert_eq!(cfg.value("section.bval").unwrap().as_bool(&cfg), Some(false));
    assert_eq!(
        cfg.value("section.sval").unwrap().as_string(&cfg),
        Some(String::from("test string"))
    );
    assert_eq!(
        cfg.value("section.fval").unwrap().as_float_text(&cfg),
        Some(String::from("321.001"))
    );
}

#[test]
fn value_type_reports_each_kind() {
    let mut cfg = Config::new();
    let s = cfg.create_section("s").unwrap();
    s.write_int32(&mut cfg, "a", 1).unwrap();
    s.write_int64(&mut cfg, "b", 2).unwrap();
    s.write_float(&mut cfg, "c", "1.5").unwrap();
    s.write_string(&mut cfg, "d", "x").unwrap();
    s.write_bool(&mut cfg, "e", true).unwrap();
    assert_eq!(cfg.value("s.a").unwrap().value_type(&cfg), Some(OptionType::IntegerType));
    assert_eq!(cfg.value("s.b").unwrap().value_type(&cfg), Some(OptionType::Int64Type));
    assert_eq!(cfg.value("s.c").unwrap().value_type(&cfg), Some(OptionType::FloatType));
    assert_eq!(cfg.value("s.d").unwrap().value_type(&cfg), Some(OptionType::StringType));
    assert_eq!(cfg.value("s.e").unwrap().value_type(&cfg), Some(OptionType::BooleanType));
    // a section has no value type
    assert_eq!(cfg.value("s").unwrap().value_type(&cfg), None);
}

#[test]
fn duplicate_name_insertion_is_rejected() {
    let mut cfg = Config::new();
    let first = cfg.create_section("x");
    assert!(first.is_some());
    let second = cfg.create_section("x");
    assert!(second.is_none());
    // the same through a writer on one group
    let sec = first.unwrap();
    assert!(sec.write_int32(&mut cfg, "n", 1).is_some());
    assert!(sec.write_int32(&mut cfg, "n", 2).is_none());
    assert!(sec.create_array(&mut cfg, "n").is_none());
    assert!(sec.create_list(&mut cfg, "n").is_none());
}

#[test]
fn invalid_names_are_rejected() {
    let mut cfg = Config::new();
    assert!(cfg.create_section("").is_none());
    assert!(cfg.create_section("has space").is_none());
    assert!(cfg.create_section("dotted.name").is_none());
    assert!(cfg.create_section("0starts_with_digit").is_none());
    assert!(cfg.create_section("ok_name-1").is_some());
}

#[test]
fn array_homogeneity_is_enforced() {
    let mut cfg = Config::new();
    let s = cfg.create_section("s").unwrap();
    let arr = s.create_array(&mut cfg, "a").unwrap();
    assert!(arr.write_int32(&mut cfg, "", 1).is_some());
    assert!(arr.write_int32(&mut cfg, "", 2).is_some());
    // a different scalar type must be refused
    assert!(arr.write_string(&mut cfg, "", "oops").is_none());
    assert!(arr.write_bool(&mut cfg, "", true).is_none());
    assert!(arr.write_int64(&mut cfg, "", 3).is_none());
    // containers never enter an array
    assert!(arr.create_section(&mut cfg, "g").is_none());
    assert!(arr.create_list(&mut cfg, "l").is_none());
    // the accepted elements are addressable by index
    assert_eq!(cfg.value("s.a.0").unwrap().as_int32(&cfg), Some(1));
    assert_eq!(cfg.value("s.a.1").unwrap().as_int32(&cfg), Some(2));
    assert!(cfg.value("s.a.2").is_none());
}

#[test]
fn lists_hold_anything_in_order() {
    let mut cfg = Config::new();
    let s = cfg.create_section("s").unwrap();
    let lst = s.create_list(&mut cfg, "l").unwrap();
    assert!(lst.write_int32(&mut cfg, "", 7).is_some());
    assert!(lst.write_string(&mut cfg, "", "seven").is_some());
    let inner = lst.create_section(&mut cfg, "ignored").unwrap();
    assert!(inner.write_bool(&mut cfg, "flag", true).is_some());
    assert_eq!(cfg.value("s.l.0").unwrap().as_int32(&cfg), Some(7));
    assert_eq!(cfg.value("s.l.1").unwrap().as_string(&cfg), Some(String::from("seven")));
    assert_eq!(cfg.value("s.l.2").unwrap().is_section(&cfg), Some(true));
    assert_eq!(cfg.value("s.l.2.flag").unwrap().as_bool(&cfg), Some(true));
}

#[test]
fn resolution_is_order_independent_of_siblings() {
    let mut cfg = Config::new();
    let g = cfg.create_section("g").unwrap();
    g.write_int32(&mut cfg, "a", 1).unwrap();
    g.write_int32(&mut cfg, "b", 2).unwrap();
    g.write_int32(&mut cfg, "c", 3).unwrap();
    assert_eq!(cfg.value("g.b").unwrap().as_int32(&cfg), Some(2));

    // same name, different siblings around it
    let mut cfg2 = Config::new();
    let g2 = cfg2.create_section("g").unwrap();
    g2.write_int32(&mut cfg2, "z", 100).unwrap();
    g2.write_int32(&mut cfg2, "b", 2).unwrap();
    assert_eq!(cfg2.value("g.b").unwrap().as_int32(&cfg2), Some(2));
}

#[test]
fn parent_walks_up_and_stops_at_root() {
    let mut cfg = Config::new();
    let outer = cfg.create_section("outer").unwrap();
    let inner = outer.create_section(&mut cfg, "inner").unwrap();
    inner.write_int32(&mut cfg, "n", 5).unwrap();
    let leaf = cfg.value("outer.inner.n").unwrap();
    let up = leaf.parent(&cfg).unwrap();
    assert_eq!(up.is_section(&cfg), Some(true));
    assert_eq!(up.value(&cfg, "n").unwrap().as_int32(&cfg), Some(5));
    let root = cfg.value("").unwrap();
    assert!(root.parent(&cfg).is_none());
}

#[test]
fn default_accessors_fall_back() {
    let mut cfg = Config::new();
    let s = cfg.create_section("s").unwrap();
    s.write_int32(&mut cfg, "n", 9).unwrap();
    s.write_string(&mut cfg, "t", "x").unwrap();
    let n = cfg.value("s.n").unwrap();
    assert_eq!(n.as_int32_default(&cfg, -1), 9);
    assert_eq!(n.as_int64_default(&cfg, -1), 9);
    assert_eq!(n.as_bool_default(&cfg, true), true);
    assert_eq!(n.as_string_default(&cfg, "d"), String::from("d"));
    let t = cfg.value("s.t").unwrap();
    assert_eq!(t.as_string_default(&cfg, "d"), String::from("x"));
    let missing = OptionReader::new(None);
    assert_eq!(missing.as_int32_default(&cfg, -1), -1);
    assert_eq!(missing.as_int64_default(&cfg, -2), -2);
    assert_eq!(missing.as_bool_default(&cfg, true), true);
    assert_eq!(missing.as_string_default(&cfg, "d"), String::from("d"));
}

#[test]
fn numeric_conversions_widen_and_truncate() {
    let mut cfg = Config::new();
    let s = cfg.create_section("s").unwrap();
    s.write_int32(&mut cfg, "small", -5).unwrap();
    s.write_int64(&mut cfg, "big", 0x1_0000_0001i64).unwrap();
    // widening
    assert_eq!(cfg.value("s.small").unwrap().as_int64(&cfg), Some(-5));
    // truncating, as documented
    assert_eq!(cfg.value("s.big").unwrap().as_int32(&cfg), Some(1));
    // cross-type scalar reads fail
    s.write_string(&mut cfg, "t", "x").unwrap();
    assert_eq!(cfg.value("s.t").unwrap().as_int32(&cfg), None);
    assert_eq!(cfg.value("s.small").unwrap().as_bool(&cfg), None);
    assert_eq!(cfg.value("s.small").unwrap().as_string(&cfg), None);
}

#[test]
fn deletion_invalidates_handles() {
    let mut cfg = Config::new();
    let s = cfg.create_section("s").unwrap();
    let inner = s.create_section(&mut cfg, "inner").unwrap();
    inner.write_int32(&mut cfg, "n", 1).unwrap();
    let rd_inner = cfg.value("s.inner").unwrap();
    let rd_leaf = cfg.value("s.inner.n").unwrap();
    let w_inner = OptionWriter::new(rd_inner.element);
    assert_eq!(w_inner.delete(&mut cfg), Ok(()));
    // handles on the deleted subtree report absence everywhere
    assert_eq!(rd_inner.is_section(&cfg), None);
    assert_eq!(rd_inner.value_type(&cfg), None);
    assert_eq!(rd_leaf.as_int32(&cfg), None);
    assert_eq!(rd_leaf.as_int32_default(&cfg, -1), -1);
    assert!(rd_inner.parent(&cfg).is_none());
    assert!(rd_leaf.value(&cfg, "").is_none());
    // the tree no longer resolves the path
    assert!(cfg.value("s.inner").is_none());
    assert!(cfg.value("s.inner.n").is_none());
    // deleting again through the stale handle fails cleanly
    assert_eq!(w_inner.delete(&mut cfg), Err(Errors::ElementNotExists));
    // the parent group is untouched
    assert_eq!(cfg.value("s").unwrap().is_section(&cfg), Some(true));
}

#[test]
fn delete_error_cases() {
    let mut cfg = Config::new();
    // unbound handle
    assert_eq!(OptionWriter::new(None).delete(&mut cfg), Err(Errors::ElementNotExists));
    // the root cannot be deleted
    let root = cfg.value("").unwrap();
    assert_eq!(root.delete(&mut cfg), Err(Errors::DeleteError));
    // a group inside a list has no name to look up
    let s = cfg.create_section("s").unwrap();
    let lst = s.create_list(&mut cfg, "l").unwrap();
    lst.create_section(&mut cfg, "x").unwrap();
    let rd = cfg.value("s.l.0").unwrap();
    assert_eq!(rd.delete(&mut cfg), Err(Errors::DeleteError));
    // a scalar element of a list is deleted by position
    lst.write_int32(&mut cfg, "", 4).unwrap();
    let rd2 = cfg.value("s.l.1").unwrap();
    assert_eq!(rd2.delete(&mut cfg), Ok(()));
}

#[test]
fn delete_by_index_keeps_sibling_order() {
    let mut cfg = Config::new();
    let s = cfg.create_section("s").unwrap();
    let arr = s.create_array(&mut cfg, "a").unwrap();
    arr.write_int32(&mut cfg, "", 10).unwrap();
    arr.write_int32(&mut cfg, "", 20).unwrap();
    arr.write_int32(&mut cfg, "", 30).unwrap();
    let middle = cfg.value("s.a.1").unwrap();
    assert_eq!(middle.delete(&mut cfg), Ok(()));
    assert_eq!(cfg.value("s.a.0").unwrap().as_int32(&cfg), Some(10));
    assert_eq!(cfg.value("s.a.1").unwrap().as_int32(&cfg), Some(30));
    assert!(cfg.value("s.a.2").is_none());
}

#[test]
fn write_float_validates_the_literal() {
    let mut cfg = Config::new();
    let s = cfg.create_section("s").unwrap();
    assert!(s.write_float(&mut cfg, "ok", "1.5e3").is_some());
    assert!(s.write_float(&mut cfg, "ok2", ".5").is_some());
    assert!(s.write_float(&mut cfg, "ok3", "-.5").is_some());
    assert!(s.write_float(&mut cfg, "bad", "abc").is_none());
    assert!(s.write_float(&mut cfg, "bad", "12").is_none());
    assert!(s.write_float(&mut cfg, "bad", "").is_none());
    // shapes the text format cannot read back are refused
    assert!(s.write_float(&mut cfg, "bad", "e5").is_none());
    assert!(s.write_float(&mut cfg, "bad", "-e1").is_none());
}

#[test]
fn boolean_keywords_are_not_names() {
    let mut cfg = Config::new();
    // such a name would serialize to a boolean literal and no longer parse
    assert!(cfg.create_section("true").is_none());
    assert!(cfg.create_section("TRUE").is_none());
    assert!(cfg.create_section("false").is_none());
    assert!(cfg.create_section("FALSE").is_none());
    let s = cfg.create_section("s").unwrap();
    assert!(s.write_int32(&mut cfg, "true", 1).is_none());
    // longer or differently-cased words are ordinary names
    assert!(s.write_int32(&mut cfg, "truely", 1).is_some());
    assert!(s.write_int32(&mut cfg, "True", 1).is_some());
}

#[test]
fn unbound_writer_creates_nothing() {
    let mut cfg = Config::new();
    let w = OptionWriter::new(None);
    assert!(w.create_section(&mut cfg, "x").is_none());
    assert!(w.create_array(&mut cfg, "x").is_none());
    assert!(w.create_list(&mut cfg, "x").is_none());
    assert!(w.write_int32(&mut cfg, "x", 1).is_none());
    assert!(cfg.value("x").is_none());
}
