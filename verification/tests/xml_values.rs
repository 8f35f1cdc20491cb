use lings::xml::{escape_xml, node_value, xml_value, XmlNode};

#[test]
fn markup_characters_are_escaped() {
    assert_eq!(
        escape_xml("a&b<c>d\"e'f &amp;"),
        "a&amp;b&lt;c&gt;d&quot;e&apos;f &amp;amp;"
    );
    assert_eq!(escape_xml(""), "");
}

#[test]
fn value_of_the_first_element_in_any_case() {
    assert_eq!(xml_value("<a><B> x &amp; y </B><b>z</b></a>", "b"), "x & y");
    assert_eq!(xml_value("<a><b><c>in</c></b></a>", "C"), "in");
    assert_eq!(xml_value("<A>top<b/></A>", "a"), "top");
}

#[test]
fn missing_values_are_empty() {
    assert_eq!(xml_value("<a><b/></a>", "b"), "");
    assert_eq!(xml_value("<a><b><c/>tail</b></a>", "b"), "");
    assert_eq!(xml_value("<a></a>", "x"), "");
    assert_eq!(xml_value("no document", "a"), "");
    assert_eq!(xml_value("<a><b>x</a>", "b"), "");
}

#[test]
fn what_is_escaped_is_read_again() {
    for text in ["a & b", "<tag>", "\"quoted\" 'too'", "]]>", "中文数据 & safe", "&amp;"] {
        let xml = format!("<r><v>{}</v></r>", escape_xml(text));
        assert_eq!(xml_value(&xml, "v"), text);
    }
}

#[test]
fn control_characters_and_line_ends_are_not_kept() {
    assert_eq!(xml_value("<r><v>a\u{1}b</v></r>", "v"), "");
    assert_eq!(xml_value("<r><v>a\r\nb</v></r>", "v"), "a\nb");
}

#[test]
fn only_elements_have_values() {
    let nodes = vec![
        XmlNode { is_element: false, name: String::new(), text: None },
        XmlNode { is_element: false, name: "v".to_string(), text: Some("no".to_string()) },
        XmlNode { is_element: true, name: "V".to_string(), text: Some(" yes ".to_string()) },
        XmlNode { is_element: true, name: "v".to_string(), text: Some("late".to_string()) },
        XmlNode { is_element: true, name: "w".to_string(), text: None },
    ];
    assert_eq!(node_value(&nodes, "v"), "yes");
    assert_eq!(node_value(&nodes, "w"), "");
    assert_eq!(node_value(&nodes, "x"), "");
}

#[test]
fn documents_of_every_form_are_read() {
    let xml = "\u{feff}<?xml version=\"1.0\" encoding=\"utf-8\"?>\r\n<r a='1' b=\"x &lt; 'y'\" >\r\n <!-- <v>no</v> - -->\r\n <e.mpty-1 />a 'b' \"c\" > d\r\n<v\tk=\"\">&apos;\r\ny</v> <w/></r>\r\n";
    assert_eq!(xml_value(xml, "v"), "'\ny");
    assert_eq!(xml_value(xml, "r"), "");
    assert_eq!(xml_value(xml, "w"), "");
    assert_eq!(xml_value("<?xml version=\"1.1\"?><r>a &amp;\r\nb\r\n\r\nc</r>", "r"), "a &\nb\n\nc");
    assert_eq!(xml_value("<r><!--a--><v>b</v></r>", "r"), "");
    assert_eq!(xml_value("<r>a<!--b-->c</r>", "r"), "a");
}

#[test]
fn texts_that_are_no_documents_are_not_read() {
    assert_eq!(xml_value("<r><v>a]]>b</v></r>", "v"), "");
    assert_eq!(xml_value("<r><!-- a -- b --><v>c</v></r>", "v"), "");
    assert_eq!(xml_value("<r a='1' a='2'><v>c</v></r>", "v"), "");
    assert_eq!(xml_value("<r><v>c</v></r><r/>", "v"), "");
    assert_eq!(xml_value("<!DOCTYPE r><r><v>c</v></r>", "v"), "");
}

#[test]
fn different_texts_stay_different() {
    let texts = ["&", "&amp;", "<", "&lt;", ">", "&gt;", "\"", "'", "&quot;", "&apos;", "", "a"];
    for a in texts {
        for b in texts {
            assert_eq!(a == b, escape_xml(a) == escape_xml(b));
        }
        assert!(!escape_xml(a).contains(&['<', '>', '"', '\''][..]));
    }
}

#[test]
fn sections_and_character_references_are_read() {
    assert_eq!(xml_value("<r>a<![CDATA[<b>&amp;]]]]>c</r>", "r"), "a<b>&amp;]]c");
    assert_eq!(xml_value("<r><![CDATA[x\r\ny\rz\r]]>.</r>", "r"), "x\ny\nz\n.");
    assert_eq!(xml_value("<r><![CDATA[]]><v/></r>", "r"), "");
    assert_eq!(xml_value("<r>&#65;&#x4e2D;&#0066;&lt;\r\n.</r>", "r"), "A中B<\n.");
    assert_eq!(xml_value("<r>.&#13;\r\n.&#13;\n.&#x0d;&#10;.&#13;&amp;.</r>", "r"), ".\r\n.\r\n.\r\n.\r&.");
}

#[test]
fn names_are_read_without_their_prefixes() {
    let xml = "<p:r xmlns:p='u' xmlns = \"d\" p:a='1' b='2' xml:lang='en'><q:v xmlns:q='u'>x</q:v ><größe>y</größe><p:w/></p:r >";
    assert_eq!(xml_value(xml, "v"), "x");
    assert_eq!(xml_value(xml, "größe"), "y");
    assert_eq!(xml_value("<r><q:v>x</q:v></r>", "v"), "");
    assert_eq!(xml_value("<r><a xmlns:q='u'/><q:v>x</q:v></r>", "v"), "");
}

#[test]
fn what_stands_around_the_root_is_passed_over() {
    let xml = "<?xml  version = '1.0'\tencoding='UTF-8' standalone=\"yes\" ?>\n<!-- a\r -->\n<?pi?><?xml-x a?b ??>\n<r><?q <v>no</v>?><v>x</v></r>\n<!--b--><?z?>\n";
    assert_eq!(xml_value(xml, "v"), "x");
    assert_eq!(xml_value("<?xml\tversion='1.0'?><r><v>x</v></r>", "v"), "x");
    assert_eq!(xml_value("<r><?xml version='1.0'?><v>x</v></r>", "v"), "");
}

#[test]
fn lone_carriage_returns_are_line_ends_but_beside_references() {
    assert_eq!(xml_value("<r>.a\rb\r\rc\r\r\nd\ré\r.</r>", "r"), ".a\nb\n\nc\n\nd\né\n.");
    assert_eq!(xml_value("<r>.&amp;\ra&lt;\r\rb.</r>", "r"), ".&\na<\n\nb.");
    assert_eq!(xml_value("<r>.\r&amp;.\r\r&#65;\r&gt;.</r>", "r"), ".\r&.\n\rA\r>.");
    assert_eq!(xml_value("<r>.&amp;\r<![CDATA[.]]></r>", "r"), ".&\r.");
    assert_eq!(xml_value("<r>.\r<![CDATA[]]>\r<![CDATA[.]]></r>", "r"), ".\n\n.");
    assert_eq!(xml_value("<r>.&amp;\r\r<![CDATA[.]]></r>", "r"), ".&\n\n.");
    assert_eq!(xml_value("<r>.&#13;\ra.</r>", "r"), ".\r\na.");
}

#[test]
fn attributes_may_share_a_name_under_different_prefixes() {
    assert_eq!(xml_value("<r xmlns:p='u' a='1' p:a='2' xml:a='3'><v>x</v></r>", "v"), "x");
    assert_eq!(xml_value("<r xmlns:p='u' xmlns:q='u' p:a='1' q:a='2'><v>x</v></r>", "v"), "");
}

#[test]
fn attributes_of_one_name_need_different_name_spaces() {
    for (attributes, value) in [
        ("xmlns:p='u' xmlns:q='w' p:a='1' q:a='2'", "x"),
        ("xmlns:p='u' xmlns:q='u' p:a='1' q:a='2'", ""),
        ("xmlns:p='u' xmlns:q='u' p:a='1' q:b='2'", "x"),
        ("xmlns:p='u' p:a='1' p:a='2'", ""),
        ("xmlns:p='u' p:a='1' q:a='2'", ""),
        ("xmlns:p='a b' xmlns:q='a\tb' p:a='1' q:a='2'", ""),
        ("xmlns:p='a b' xmlns:q='a\r\nb' p:a='1' q:a='2'", ""),
        ("xmlns:p='a b' xmlns:q='a\rb' p:a='1' q:a='2'", ""),
        ("xmlns:p='a b' xmlns:q='a&#10;b' p:a='1' q:a='2'", "x"),
        ("xmlns:p='a&amp;b' xmlns:q='a&#38;b' p:a='1' q:a='2'", ""),
        ("xmlns:p='' p:a='1' a='2'", "x"),
        ("xmlns:p='u' p:xmlns='w' xmlns='v'", "x"),
        ("xmlns:p='u' p:xmlns='http://www.w3.org/2000/xmlns/'", ""),
    ] {
        let xml = format!("<r {}><v>x</v></r>", attributes);
        assert_eq!(xml_value(&xml, "v"), value, "{}", attributes);
    }
    let inner = "<r xmlns:p='u' xmlns:q='w'><s xmlns:q='u' p:a='1' q:a='2'/><v>x</v></r>";
    assert_eq!(xml_value(inner, "v"), "");
    let inner = "<r xmlns:p='u' xmlns:q='u'><s xmlns:q='w' p:a='1' q:a='2'/><v>x</v></r>";
    assert_eq!(xml_value(inner, "v"), "x");
}

#[test]
fn the_prefix_xml_is_one_for_attributes_only() {
    let space = "http://www.w3.org/XML/1998/namespace";
    let declared = format!("<r xmlns:xml='{}' xml:a='1'><v>x</v></r>", space);
    assert_eq!(xml_value(&declared, "v"), "x");
    assert_eq!(xml_value("<r xmlns:xml='u'><v>x</v></r>", "v"), "");
    let other = format!("<r xmlns:p='{}'><v>x</v></r>", space);
    assert_eq!(xml_value(&other, "v"), "");
    let element = format!("<r xmlns:xml='{}'><xml:v>x</xml:v></r>", space);
    assert_eq!(xml_value(&element, "v"), "");
    assert_eq!(xml_value("<r><xml:v>x</xml:v></r>", "v"), "");
}
