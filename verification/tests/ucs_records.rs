use lings::ucs::{aswg_xml, parse_ucs_filename, parse_ucs_name, parse_ucs_stem, UcsMeta};
use std::path::Path;

#[test]
fn a_stem_names_category_and_effect() {
    let u = parse_ucs_stem("AIRBlow_Burst-Compressed Air Burst _BOOM_SD");
    assert_eq!(u.cat_id, "AIRBlow");
    assert_eq!(u.fx_name, "Compressed Air Burst");
    assert_eq!(u.category, "");
    assert_eq!(u.user_data, "");
}

#[test]
fn a_stem_without_an_underscore_says_nothing() {
    let u = parse_ucs_stem("Compressed-Air");
    assert_eq!(u.cat_id, "");
    assert_eq!(u.fx_name, "");
}

#[test]
fn an_effect_may_be_plain_or_empty() {
    assert_eq!(parse_ucs_stem("AIRBlow_Test").fx_name, "Test");
    let u = parse_ucs_stem("_");
    assert_eq!(u.cat_id, "");
    assert_eq!(u.fx_name, "");
    assert_eq!(parse_ucs_stem("A_b-").fx_name, "");
}

#[test]
fn the_extension_is_no_part_of_the_stem() {
    let u = parse_ucs_name(Some("AIRBlow_test-7.1.wav"));
    assert_eq!(u.cat_id, "AIRBlow");
    assert_eq!(u.fx_name, "7.1");
    assert_eq!(parse_ucs_name(None).cat_id, "");
}

#[test]
fn a_path_counts_by_its_file_name() {
    let u = parse_ucs_filename(Path::new("/a_b/c/AIRBlow_test-12.wav"));
    assert_eq!(u.cat_id, "AIRBlow");
    assert_eq!(u.fx_name, "12");
    assert_eq!(parse_ucs_filename(Path::new("a_b/..")).cat_id, "");
    assert_eq!(parse_ucs_filename(Path::new("c/a_b-d/")).fx_name, "d");
    assert_eq!(parse_ucs_filename(Path::new("c/a_b-d/./")).cat_id, "a");
    assert_eq!(parse_ucs_filename(Path::new("//server/share/c/a_b-d.wav")).cat_id, "a");
    assert_eq!(parse_ucs_filename(Path::new("\\a_b-d.wav")).fx_name, "d");
    assert_eq!(parse_ucs_filename(Path::new("\\\\?\\C:\\c\\a_b-d.wav")).fx_name, "d");
    assert_eq!(parse_ucs_filename(Path::new("\\\\server\\share\\a_b-d.wav")).fx_name, "d");
}

#[test]
fn a_block_holds_every_field_in_order() {
    let u = UcsMeta {
        cat_id: "1".into(),
        category: "2".into(),
        sub_category: "3".into(),
        user_category: "4".into(),
        vendor_category: "5".into(),
        fx_name: "6".into(),
        creator_id: "7".into(),
        source_id: "8".into(),
        user_data: "9 < 10".into(),
        ucs_library: "11".into(),
    };
    assert_eq!(aswg_xml(&u), "<ASWG><content_type>sfx</content_type><category>2</category><sub_category>3</sub_category><cat_id>1</cat_id><user_category>4</user_category><vendor_category>5</vendor_category><fx_name>6</fx_name><library>11</library><creator_id>7</creator_id><source_id>8</source_id><user_data>9 &lt; 10</user_data></ASWG>");
    assert_eq!(u.clone().user_data, "9 < 10");
}
