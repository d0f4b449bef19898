//! TOML and JSON texts as plain data.
use pycoati::document::{read_list, read_text, read_toml, Item};
use pycoati::json::{read_json, Json};
use pycoati::syntax::{parse_source, SyntaxError};

#[test]
fn a_toml_document_is_a_table_of_its_entries() {
    let document = read_toml("b = [\"x\", \"y\"]\na = \"text\"\n[c]\nd = 1\n").expect("TOML");
    let Item::Table(entries) = document else {
        panic!("a document is a table");
    };
    let keys: Vec<&str> = entries.iter().map(|(k, _)| k.as_str()).collect();
    assert_eq!(keys, vec!["a", "b", "c"]);
    assert!(matches!(&entries[0].1, Item::Text(s) if s == "text"));
    assert!(matches!(&entries[1].1, Item::List(v) if v.len() == 2));
    assert!(matches!(&entries[2].1, Item::Table(v) if v.len() == 1 && matches!(v[0].1, Item::Other)));
}

#[test]
fn a_broken_toml_document_gives_its_message() {
    let err = read_toml("a = ").expect_err("no TOML");
    assert!(err.contains("TOML parse error"), "{err}");
}

#[test]
fn members_are_read_by_their_type() {
    let text = Item::Text("x".to_string());
    assert_eq!(read_text(None, "m"), Ok(None));
    assert_eq!(read_text(Some(&text), "m"), Ok(Some("x".to_string())));
    assert_eq!(
        read_text(Some(&Item::Other), "m"),
        Err("invalid type for `m`, expected a string".to_string())
    );
    let list = Item::List(vec![Item::Text("a".to_string()), Item::Text("b".to_string())]);
    assert_eq!(read_list(None, "m"), Ok(None));
    assert_eq!(read_list(Some(&list), "m"), Ok(Some(vec!["a".to_string(), "b".to_string()])));
    assert_eq!(
        read_list(Some(&Item::List(vec![Item::Other])), "m"),
        Err("invalid type for `m`, expected a list of strings".to_string())
    );
}

#[test]
fn a_record_may_stand_as_a_list_of_its_members() {
    let names: &[&'static str] = &["one", "two"];
    let list = Item::List(vec![Item::Text("a".to_string()), Item::Other]);
    assert!(list.is_record(names));
    assert!(matches!(list.member(names, 0), Some(Item::Text(s)) if s == "a"));
    assert!(!Item::List(vec![Item::Other]).is_record(names));
    assert!(!Item::Other.is_record(names));
    let table = Item::Table(vec![("two".to_string(), Item::Text("b".to_string()))]);
    assert!(table.is_record(names));
    assert!(table.member(names, 0).is_none());
    assert!(matches!(table.member(names, 1), Some(Item::Text(s)) if s == "b"));
}

#[test]
fn a_json_text_is_its_value() {
    let value = read_json("{\"b\": [1, 2.5], \"a\": null, \"c\": \"x\"}").expect("JSON");
    assert!(matches!(value.get("a"), Some(Json::Other)));
    assert!(matches!(value.get("c"), Some(Json::Text(s)) if s == "x"));
    match value.get("b") {
        Some(Json::List(v)) => {
            assert!(matches!(v[0], Json::Number(bits) if bits == 1f64.to_bits()));
            assert!(matches!(v[1], Json::Number(bits) if bits == 2.5f64.to_bits()));
        }
        _ => panic!("a list"),
    }
    assert!(value.get("d").is_none());
    assert!(Json::Other.get("d").is_none());
}

#[test]
fn a_broken_json_text_gives_its_message() {
    let err = read_json("{").expect_err("no JSON");
    assert!(err.contains("EOF"), "{err}");
}

#[test]
fn a_syntax_tree_holds_the_nodes_of_a_walk() {
    let tree = parse_source("x = f(1)\n").expect("a tree");
    let kinds: Vec<(&str, usize, bool)> =
        tree.nodes.iter().map(|n| (n.kind.as_str(), n.depth, n.named)).collect();
    assert_eq!(
        kinds,
        vec![
            ("module", 0, true),
            ("expression_statement", 1, true),
            ("assignment", 2, true),
            ("identifier", 3, true),
            ("=", 3, false),
            ("call", 3, true),
            ("identifier", 4, true),
            ("argument_list", 4, true),
            ("(", 5, false),
            ("integer", 5, true),
            (")", 5, false),
        ]
    );
    assert_eq!(tree.child(2, "left"), Some(3));
    assert_eq!(tree.child(2, "right"), Some(5));
    assert_eq!(tree.children_of(2), vec![3, 4, 5]);
    assert_eq!(tree.named_children_of(2), vec![3, 5]);
    assert_eq!(tree.first_named_child(5), Some(6));
    assert_eq!(tree.parent_of(5), Some(2));
    assert_eq!(tree.parent_of(0), None);
    assert_eq!(tree.descendants_of(0, "identifier"), vec![3, 6]);
    assert_eq!(tree.end(5), 11);
    assert_eq!(tree.text_of(5).map(String::as_str), Some("f(1)"));
    assert_eq!(tree.text_of(7).map(String::as_str), Some("(1)"));
}

#[test]
fn the_text_of_a_node_is_cut_between_characters() {
    let tree = parse_source("é = 'ü'\n").expect("a tree");
    let names: Vec<Option<&str>> = tree
        .descendants_of(0, "identifier")
        .into_iter()
        .map(|i| tree.text_of(i).map(String::as_str))
        .collect();
    assert_eq!(names, vec![Some("é")]);
    let content = tree.descendants_of(0, "string_content");
    assert_eq!(tree.text_of(content[0]).map(String::as_str), Some("ü"));
}

#[test]
fn the_reasons_for_a_missing_tree_are_told_apart() {
    assert_eq!(SyntaxError::Grammar.message(), "failed to load tree-sitter Python grammar");
    assert_eq!(SyntaxError::NoTree.message(), "tree-sitter returned no tree");
}
