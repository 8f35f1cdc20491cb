use lings::ixml::{merge_ixml, replace_ascii_ci};
use lings::ucs::{aswg_xml, UcsMeta};
use lings::xml::xml_value;

#[test]
fn preserves_other_ixml_fields() {
    let old =
        "<BWFXML><PROJECT>Game</PROJECT><ASWG><cat_id>OLD</cat_id></ASWG></BWFXML>".to_string();
    let out = merge_ixml(
        Some(old),
        &UcsMeta {
            cat_id: "NEW".into(),
            ..Default::default()
        },
    );
    assert!(out.contains("<PROJECT>Game</PROJECT>"));
    assert_eq!(xml_value(&out, "cat_id"), "NEW")
}

#[test]
fn a_part_is_replaced_in_any_case() {
    assert_eq!(
        replace_ascii_ci("Ä<aSwG x='1'>old</ASWg>rest", "<ASWG", "</ASWG>", "new"),
        Some("Änewrest".to_string())
    );
    assert_eq!(
        replace_ascii_ci("<B></A><A></A>", "<a", "</a>", "-"),
        Some("<B></A>-".to_string())
    );
}

#[test]
fn without_both_tags_nothing_is_replaced() {
    assert_eq!(replace_ascii_ci("text", "<a", "</a>", "-"), None);
    assert_eq!(replace_ascii_ci("</a><a>", "<a", "</a>", "-"), None);
    assert_eq!(replace_ascii_ci("", "<a", "</a>", "-"), None);
}

#[test]
fn a_block_is_added_before_the_last_end_tag() {
    let u = UcsMeta::default();
    let block = aswg_xml(&u);
    assert_eq!(
        merge_ixml(Some("<BWFXML><A/></BWFXML> </BWFXML>\n".to_string()), &u),
        format!("<BWFXML><A/></BWFXML> {}</BWFXML>\n", block)
    );
}

#[test]
fn a_new_document_is_made_where_there_is_none() {
    let u = UcsMeta::default();
    let block = aswg_xml(&u);
    assert_eq!(
        merge_ixml(None, &u),
        format!("<?xml version=\"1.0\" encoding=\"UTF-8\"?><BWFXML>{}</BWFXML>", block)
    );
    assert_eq!(
        merge_ixml(Some("broken".to_string()), &u),
        format!("<BWFXML>{}</BWFXML>", block)
    );
}

#[test]
fn the_last_merge_wins() {
    let first = UcsMeta { category: "AIR".into(), user_data: "</ASWG>".into(), ..Default::default() };
    let second = UcsMeta { category: "WATER".into(), ..Default::default() };
    for old in [
        None,
        Some("broken".to_string()),
        Some("<BWFXML><SPEED><NOTE>x</NOTE></SPEED></BWFXML>".to_string()),
        Some("<BWFXML>\n <aswg><cat_id/></aswg>\n</BWFXML>".to_string()),
    ] {
        let once = merge_ixml(old.clone(), &second);
        let twice = merge_ixml(Some(merge_ixml(old, &first)), &second);
        assert_eq!(once, twice);
    }
}

#[test]
fn an_open_block_is_not_merged_twice_alike() {
    let x = Some("<BWFXML><ASWG>lost</BWFXML>".to_string());
    let u = UcsMeta::default();
    let once = merge_ixml(x.clone(), &u);
    assert!(once.contains("lost"));
    assert!(!merge_ixml(Some(once), &u).contains("lost"));
}

fn record(cat_id: &str) -> UcsMeta {
    UcsMeta { cat_id: cat_id.into(), user_data: "a < b".into(), ..Default::default() }
}

#[test]
fn a_block_is_exchanged_and_the_rest_is_kept() {
    let before = "\u{feff}<?xml version=\"1.0\"?>\r\n<BWFXML v='2'>\r\n <!-- it's old --><SPEED><NOTE/></SPEED><X>\r\n  ";
    let after = " tail</X>\r\n</BWFXML>\r\n";
    let old = format!("{before}<Aswg note=\"1\"><cat_id>OLD</cat_id></aSWG>{after}");
    assert_eq!(merge_ixml(Some(old), &record("NEW")), format!("{before}{}{after}", aswg_xml(&record("NEW"))));
    let old = format!("{before}<ASWG note=\"1\"><cat_id>OLD</cat_id></ASWG>{after}");
    let new = merge_ixml(Some(old), &record("NEW"));
    assert_eq!(xml_value(&new, "cat_id"), "NEW");
    assert_eq!(xml_value(&new, "user_data"), "a < b");
}

#[test]
fn a_block_is_added_and_the_rest_is_kept() {
    let before = "<BWFXML>\n<SPEED note='1'>Don't</SPEED>\n";
    let after = "</BWFXML>\n\n";
    let new = merge_ixml(Some(format!("{before}{after}")), &record("NEW"));
    assert_eq!(new, format!("{before}{}{after}", aswg_xml(&record("NEW"))));
    assert_eq!(xml_value(&new, "cat_id"), "NEW");
    assert_eq!(xml_value(&new, "speed"), "Don't");
}

#[test]
fn one_record_after_another_is_read() {
    let mut document = None;
    for id in ["A", "B", "C"] {
        let new = merge_ixml(document, &record(id));
        assert_eq!(xml_value(&new, "cat_id"), id);
        document = Some(new);
    }
}

#[test]
fn a_field_before_the_block_hides_that_of_the_block() {
    let old = "<BWFXML><cat_id>FIRST</cat_id></BWFXML>".to_string();
    assert_eq!(xml_value(&merge_ixml(Some(old), &record("NEW")), "cat_id"), "FIRST");
}

#[test]
fn blocks_are_put_into_documents_of_every_form() {
    let head = "<?xml version='1.0' standalone='yes'?>\n<!-- a --><?b c?>\n<BWFXML xmlns=\"u\" xmlns:p='v'><p:x><![CDATA[</p:x>]]>&#65;</p:x>";
    let foot = "</BWFXML>\n<!-- end --><?z?>\n";
    let new = merge_ixml(Some(format!("{head}{foot}")), &record("NEW"));
    assert_eq!(new, format!("{head}{}{foot}", aswg_xml(&record("NEW"))));
    assert_eq!(xml_value(&new, "cat_id"), "NEW");
    assert_eq!(xml_value(&new, "x"), "</p:x>A");
    let again = merge_ixml(Some(new), &record("NEXT"));
    assert_eq!(again, format!("{head}{}{foot}", aswg_xml(&record("NEXT"))));
    assert_eq!(xml_value(&again, "cat_id"), "NEXT");
}

#[test]
fn an_end_tag_in_a_comment_behind_the_root_is_taken_for_that_of_the_root() {
    let old = "<BWFXML></BWFXML><!-- </BWFXML> -->".to_string();
    assert_eq!(xml_value(&merge_ixml(Some(old), &record("NEW")), "cat_id"), "");
}
