use bochi::device::{
    element_center, format_adb_error, next_scroll_action, parse_screen_size, scroll_swipe,
    ScrollAction,
};
use bochi::parser::trim_str;
use bochi::selector::{AttrClause, AttrOp, Selector};
use bochi::tree::{TreeNode, UiTree};
use bochi::ui_element::{
    UiElement, bounds_from_groups, find_elements, find_elements_with_descendants, parse_bounds,
    parse_decimal_i32,
};

fn clause(attr: &str, op: AttrOp, value: &str) -> AttrClause {
    AttrClause { attr: attr.to_string(), op, value: value.to_string() }
}

fn only_clauses(s: &Selector) -> &Vec<AttrClause> {
    match s {
        Selector::And(cs) => cs,
        _ => panic!("Expected And selector"),
    }
}

#[test]
fn equals_clause_needs_the_attribute() {
    let doc = UiTree::parse(r#"<n text="Submit"/>"#).unwrap();
    let n = doc.root_element().unwrap();
    assert!(Selector::parse("[text=Submit]").unwrap().matches(&doc, n));
    assert!(!Selector::parse("[text=Subm]").unwrap().matches(&doc, n));
    assert!(!Selector::parse("[class=Submit]").unwrap().matches(&doc, n));
}

#[test]
fn conjunction_ignores_clause_order() {
    let doc = UiTree::parse(r#"<n text="OK" class="Button"/>"#).unwrap();
    let n = doc.root_element().unwrap();
    let ab = Selector::parse("[text=OK][class=Button]").unwrap();
    let ba = Selector::parse("[class=Button][text=OK]").unwrap();
    assert!(ab.matches(&doc, n));
    assert!(ba.matches(&doc, n));
    let bad = Selector::parse("[class=Button][text=No]").unwrap();
    assert!(!bad.matches(&doc, n));
}

#[test]
fn empty_or_members_are_errors() {
    assert!(Selector::parse(",[a=1]").is_err());
    assert!(Selector::parse("[a=1],").is_err());
    assert!(Selector::parse("[a=1],,[b=2]").is_err());
    let doc = UiTree::parse(r#"<n a="2"/>"#).unwrap();
    let n = doc.root_element().unwrap();
    assert!(Selector::parse("[a=1],[a=2]").unwrap().matches(&doc, n));
    assert!(!Selector::parse("[a=1],[a=3]").unwrap().matches(&doc, n));
}

#[test]
fn error_message_names_the_trimmed_input() {
    let e = Selector::parse("  [text=  ").unwrap_err();
    assert_eq!(e, "Invalid selector format: [text=");
}

#[test]
fn has_looks_strictly_below() {
    let doc = UiTree::parse(r#"<n text="X"><m text="Y"/></n>"#).unwrap();
    let n = doc.root_element().unwrap();
    let m = doc.first_element_child(n).unwrap();
    assert!(!Selector::parse(":has([text=X])").unwrap().matches(&doc, n));
    assert!(Selector::parse(":has([text=Y])").unwrap().matches(&doc, n));
    assert!(!Selector::parse(":has([text=Y])").unwrap().matches(&doc, m));
}

#[test]
fn not_text_matches_absent_or_different() {
    let doc = UiTree::parse(r#"<n><a text="X"/><b text="Z"/><c/></n>"#).unwrap();
    let root = doc.root_element().unwrap();
    let sel = Selector::parse(":not([text=X])").unwrap();
    let mut seen = Vec::new();
    for i in 0..doc.nodes.len() {
        if doc.nodes[i].element && i != root {
            seen.push(sel.matches(&doc, i));
        }
    }
    assert_eq!(seen, vec![false, true, true]);
}

#[test]
fn child_combinator_skips_grandchildren() {
    let doc = UiTree::parse(
        r#"<n class="Column"><a clickable="true"><b clickable="true"/></a></n>"#,
    )
    .unwrap();
    let n = doc.root_element().unwrap();
    let a = doc.first_element_child(n).unwrap();
    let b = doc.first_element_child(a).unwrap();
    let sel = Selector::parse("[class=Column]>[clickable=true]").unwrap();
    assert!(sel.matches(&doc, a));
    assert!(!sel.matches(&doc, b));
}

#[test]
fn child_binds_tighter_than_descendant() {
    let s = Selector::parse("[class=A] > [class=B] [text=T]").unwrap();
    match s {
        Selector::Descendant { ancestor, descendant } => {
            match *ancestor {
                Selector::Child { parent, child } => {
                    assert_eq!(only_clauses(&parent)[0].value, "A");
                    assert_eq!(only_clauses(&child)[0].value, "B");
                }
                _ => panic!("Expected Child selector"),
            }
            assert_eq!(only_clauses(&descendant)[0].value, "T");
        }
        _ => panic!("Expected Descendant selector"),
    }
}

#[test]
fn empty_values_only_with_equals() {
    assert!(Selector::parse("[text^=]").is_err());
    assert!(Selector::parse("[text$=]").is_err());
    assert!(Selector::parse("[text*=]").is_err());
    let s = Selector::parse("[text=]").unwrap();
    let doc = UiTree::parse(r#"<n><a text=""/><b text="x"/></n>"#).unwrap();
    let n = doc.root_element().unwrap();
    let a = doc.first_element_child(n).unwrap();
    assert!(s.matches(&doc, a));
    assert!(!s.matches(&doc, a + 1));
}

#[test]
fn legacy_form_gives_the_bracket_shape() {
    let legacy = Selector::parse("text=Submit").unwrap();
    let bracket = Selector::parse("[text=Submit]").unwrap();
    assert_eq!(legacy, bracket);
    assert_eq!(legacy, Selector::And(vec![clause("text", AttrOp::Equals, "Submit")]));
}

#[test]
fn legacy_form_edge_cases() {
    assert_eq!(
        Selector::parse(" a = 'b c' ").unwrap(),
        Selector::And(vec![clause("a", AttrOp::Equals, "b c")])
    );
    assert_eq!(
        Selector::parse("a=\"").unwrap(),
        Selector::And(vec![clause("a", AttrOp::Equals, "\"")])
    );
    assert!(Selector::parse("a=\"\"").is_err());
    assert!(Selector::parse("=b").is_err());
    assert!(Selector::parse("a:b=c").is_err());
    assert_eq!(
        Selector::parse("a=b=c").unwrap(),
        Selector::And(vec![clause("a", AttrOp::Equals, "b=c")])
    );
}

#[test]
fn end_to_end_operators() {
    let doc = UiTree::parse(r#"<n text="Submit Form" class="Button"/>"#).unwrap();
    let n = doc.root_element().unwrap();
    assert!(Selector::parse("[text^=Submit][text$=Form][class=Button]").unwrap().matches(&doc, n));
    assert!(!Selector::parse("[text^=Cancel]").unwrap().matches(&doc, n));
}

#[test]
fn last_suffix_of_a_kind_wins() {
    let s = Selector::parse("[a=1]:has([b=2]):not([c=3]):has([d=4])").unwrap();
    match s {
        Selector::Complex { attrs, has, not } => {
            assert_eq!(attrs.len(), 1);
            assert_eq!(only_clauses(&has.unwrap())[0].attr, "d");
            assert_eq!(only_clauses(&not.unwrap())[0].attr, "c");
        }
        _ => panic!("Expected Complex selector"),
    }
}

#[test]
fn nested_parentheses_in_pseudo() {
    let s = Selector::parse(":has(:not(:has([a=1])))").unwrap();
    match s {
        Selector::Has(inner) => match *inner {
            Selector::Not(inner2) => assert!(matches!(*inner2, Selector::Has(_))),
            _ => panic!("Expected Not selector"),
        },
        _ => panic!("Expected Has selector"),
    }
    assert!(Selector::parse(":has([a=1]").is_err());
}

#[test]
fn non_element_nodes_never_match() {
    let doc = UiTree::parse(r#"<n text="a">hello</n>"#).unwrap();
    let s = Selector::parse(":not([text=zzz])").unwrap();
    assert!(!s.matches(&doc, 0));
    assert!(s.matches(&doc, 1));
    assert!(!s.matches(&doc, 2));
}

#[test]
fn aliases_resolve() {
    let doc = UiTree::parse(r#"<n long-clickable="true" resource-id="r"/>"#).unwrap();
    let n = doc.root_element().unwrap();
    assert!(Selector::parse("[long_clickable=true]").unwrap().matches(&doc, n));
    assert!(Selector::parse("[resource_id=r]").unwrap().matches(&doc, n));
    assert!(!Selector::parse("[resourceid=r]").unwrap().matches(&doc, n));
}

#[test]
fn tree_rejects_parent_after_child() {
    let node = |parent: Option<usize>| TreeNode {
        element: true,
        tag: "n".to_string(),
        attrs: vec![],
        parent,
    };
    assert!(UiTree::from_nodes(vec![node(None), node(Some(0))]).is_some());
    assert!(UiTree::from_nodes(vec![node(Some(1)), node(None)]).is_none());
}

#[test]
fn bad_xml_is_reported() {
    let sel = Selector::parse("[a=1]").unwrap();
    let e = find_elements("<a>", &sel).unwrap_err();
    assert!(e.starts_with("Failed to parse XML: "));
}

#[test]
fn find_elements_in_document_order() {
    let xml = r#"<h><n text="A" bounds="[0,0][10,20]"><m text="A" bounds="[1,2][3,4]"/></n><k text="A"/><n text="B" bounds="[5,5][6,6]"/></h>"#;
    let sel = Selector::parse("[text=A]").unwrap();
    let found = find_elements(xml, &sel).unwrap();
    assert_eq!(found.len(), 2);
    assert_eq!(found[0].bounds, (0, 0, 10, 20));
    assert_eq!(found[0].raw_xml, r#"<n text="A" bounds="[0,0][10,20]">"#);
    assert_eq!(found[1].bounds, (1, 2, 3, 4));
    assert_eq!(found[1].raw_xml, r#"<m text="A" bounds="[1,2][3,4]" />"#);
}

#[test]
fn find_elements_with_subtrees_and_escapes() {
    let xml = r#"<h><n text="a&amp;&lt;b&gt;&quot;" bounds="[0,0][1,1]">x<m/><!-- c --><k class="q"/></n></h>"#;
    let sel = Selector::parse("[bounds=\"[0,0][1,1]\"]").unwrap();
    let found = find_elements_with_descendants(xml, &sel).unwrap();
    assert_eq!(found.len(), 1);
    assert_eq!(
        found[0].raw_xml,
        r#"<n text="a&amp;&lt;b&gt;&quot;" bounds="[0,0][1,1]"><m /><k class="q" /></n>"#
    );
}

#[test]
fn bounds_need_four_numbers() {
    assert_eq!(parse_bounds("x[1,2][3,4]y"), Some((1, 2, 3, 4)));
    assert_eq!(parse_bounds("[1,2][3]"), None);
    assert_eq!(parse_bounds("[99999999999,2][3,4]"), None);
    let groups = vec![None, Some("7".to_string()), Some("-8".to_string()), Some("+9".to_string()), Some("10".to_string())];
    assert_eq!(bounds_from_groups(&groups), Some((7, -8, 9, 10)));
    let missing = vec![None, Some("7".to_string()), None, Some("9".to_string()), Some("10".to_string())];
    assert_eq!(bounds_from_groups(&missing), None);
}

#[test]
fn decimal_reading() {
    assert_eq!(parse_decimal_i32("2147483647"), Some(2147483647));
    assert_eq!(parse_decimal_i32("-2147483648"), Some(-2147483648));
    assert_eq!(parse_decimal_i32("2147483648"), None);
    assert_eq!(parse_decimal_i32("-"), None);
    assert_eq!(parse_decimal_i32(""), None);
    assert_eq!(parse_decimal_i32("1a"), None);
    assert_eq!(parse_decimal_i32("+0"), Some(0));
}

#[test]
fn trimming_uses_unicode_whitespace() {
    assert_eq!(trim_str("\u{3000} a b\t\n"), "a b");
    assert_eq!(trim_str("   "), "");
}

#[test]
fn adb_error_messages() {
    assert_eq!(format_adb_error(true, "x"), "adb is not available in the $PATH directories");
    assert_eq!(format_adb_error(false, "denied"), "Failed to execute adb: denied");
}

#[test]
fn centers_round_toward_zero() {
    assert_eq!(element_center((0, 0, 101, 51)), (50, 25));
    assert_eq!(element_center((-3, -3, 0, 0)), (-1, -1));
    assert_eq!(element_center((i32::MAX, 0, i32::MAX, 0)), (i32::MAX, 0));
}

#[test]
fn scroll_swipes() {
    // Screen 2000 tall: 30% is 600, 70% is 1400, a fifth is 400.
    assert_eq!(scroll_swipe((0, 100, 1000, 1900), 2000, false), (500, 1500, 600));
    assert_eq!(scroll_swipe((0, 100, 1000, 1900), 2000, true), (500, 500, 1400));
    assert_eq!(scroll_swipe((0, -500, 10, 100), 2000, true), (5, 0, 0));
}

#[test]
fn screen_size_from_wm_output() {
    assert_eq!(parse_screen_size("Physical size: 1080x1920\n"), Some((1080, 1920)));
    assert_eq!(
        parse_screen_size("Physical size: 1080x1920\r\nOverride size: 720x1280\r\n"),
        Some((1080, 1920))
    );
    assert_eq!(parse_screen_size("Physical size: 10x20x30\nOverride size: 7x8"), Some((7, 8)));
    assert_eq!(parse_screen_size("no size here"), None);
    assert_eq!(parse_screen_size("size: ax1"), None);
}

#[test]
fn scroll_rounds() {
    let on_screen = UiElement { bounds: (0, 0, 10, 10), raw_xml: String::new() };
    let below = UiElement { bounds: (0, 3000, 10, 3100), raw_xml: String::new() };
    let list = Some((0, 100, 1000, 1900));
    assert_eq!(next_scroll_action(Some(&on_screen), list, 1000, 2000, false), ScrollAction::Done);
    assert_eq!(
        next_scroll_action(Some(&below), list, 1000, 2000, false),
        ScrollAction::Swipe { x: 500, from_y: 1500, to_y: 600 }
    );
    assert_eq!(next_scroll_action(None, None, 1000, 2000, true), ScrollAction::NoScrollElement);
}

#[test]
fn identifiers_take_unicode_letters() {
    let s = Selector::parse("[tëxt_1-a=b]").unwrap();
    assert_eq!(only_clauses(&s)[0].attr, "tëxt_1-a");
    assert!(Selector::parse("[te@xt=b]").is_err());
}

#[test]
fn descendant_steps_need_whitespace() {
    assert!(Selector::parse(":has([text=A])[text=B]").is_err());
    assert!(Selector::parse(":has([text=A]):not([text=B])").is_err());
    match Selector::parse(":has([text=A]) [text=B]").unwrap() {
        Selector::Descendant { ancestor, descendant } => {
            assert!(matches!(*ancestor, Selector::Has(_)));
            assert_eq!(only_clauses(&descendant)[0].value, "B");
        }
        _ => panic!("Expected Descendant selector"),
    }
}

#[test]
fn suffixes_must_be_adjacent() {
    let s = Selector::parse("[class=A] :has([text=B])").unwrap();
    let expected = Selector::Descendant {
        ancestor: Box::new(Selector::And(vec![clause("class", AttrOp::Equals, "A")])),
        descendant: Box::new(Selector::Has(Box::new(Selector::And(vec![clause(
            "text",
            AttrOp::Equals,
            "B",
        )])))),
    };
    assert_eq!(s, expected);
    match Selector::parse("[class=A]:has([text=B]) :not([text=C])").unwrap() {
        Selector::Descendant { ancestor, descendant } => {
            assert!(matches!(*ancestor, Selector::Complex { .. }));
            assert!(matches!(*descendant, Selector::Not(_)));
        }
        _ => panic!("Expected Descendant selector"),
    }
}

#[test]
fn empty_member_error_message() {
    for s in [",[a=1]", "[a=1],", "[a=1], ,[b=2]"] {
        let e = Selector::parse_bracket(s).unwrap_err();
        assert_eq!(e.message, "Empty selector in OR expression");
    }
    assert_eq!(Selector::parse_bracket("[a=").unwrap_err().message, "Unexpected end of input");
    assert!(Selector::parse_bracket("a=b").is_err());
    assert!(Selector::parse_bracket(" [a=b] ").is_ok());
}

#[test]
fn nesting_is_bounded() {
    let mut s = String::from("[a=1]");
    for _ in 0..32 {
        s = format!(":has({})", s);
    }
    assert!(Selector::parse(&s).is_ok());
    let deeper = format!(":not({})", s);
    assert_eq!(Selector::parse(&deeper).unwrap_err(), "Selector nested too deeply");
    assert_eq!(
        Selector::parse_bracket(&deeper).unwrap_err().message,
        "Selector nested too deeply"
    );
}

#[test]
fn selectors_clone_to_equal_values() {
    let s = Selector::parse("[a=1]:has([b=2],[c^=3]) > :not([d=4]) [e*=5]").unwrap();
    assert_eq!(s.clone(), s);
}
