use vault_dweller::front_matter::front_matter_properties;
use vault_dweller::query::parse;
use vault_dweller::tags::{erase_code, extract_tags, tag_splitter};
use vault_dweller::vault::{classify, split_file_name};
use vault_dweller::dataview::{eval, eval_and, eval_or};
use vault_dweller::{
    DataSource, EntryKind, Expr, ItemType, Number, Property, QueryOutput, QueryStruct,
    QueryStructType, Tree, VaultIndex, VaultItem,
};

fn names(v: &[&str]) -> Vec<String> {
    v.iter().map(|s| s.to_string()).collect()
}

fn listed(out: &QueryOutput) -> Vec<String> {
    match out {
        QueryOutput::List(items) => items
            .iter()
            .map(|i| {
                assert!(i.additional_info.is_none());
                i.note_name.clone().unwrap()
            })
            .collect(),
        other => panic!("expected a list, got {:?}", other),
    }
}

fn test_vault() -> VaultIndex {
    let mut vi = VaultIndex::with_root("TestVault".to_string(), "/v/TestVault".to_string());
    vi.add_note(
        0,
        "This is the Test Vault.md".to_string(),
        "/v/TestVault/This is the Test Vault.md".to_string(),
        "# Welcome\nThis vault is for #test purposes.\n",
    )
    .unwrap();
    let a = vi
        .add_folder(0, "Folder A".to_string(), "/v/TestVault/Folder A".to_string())
        .unwrap();
    vi.add_note(
        a,
        "Lorem Ipsum.md".to_string(),
        "/v/TestVault/Folder A/Lorem Ipsum.md".to_string(),
        "---\ntitle: Lorem\ncount: 3\n---\nSome #Lorem and #Ipsum text.\n",
    )
    .unwrap();
    vi.add_file(a, "picture.png".to_string(), "/v/TestVault/Folder A/picture.png".to_string())
        .unwrap();
    vi
}

fn abc_vault() -> VaultIndex {
    let mut vi = VaultIndex::with_root("V".to_string(), "/v".to_string());
    vi.add_note(0, "A.md".to_string(), "/v/A.md".to_string(), "#x").unwrap();
    vi.add_note(0, "B.md".to_string(), "/v/B.md".to_string(), "#y").unwrap();
    vi.add_note(0, "C.md".to_string(), "/v/C.md".to_string(), "#x #y").unwrap();
    vi
}

#[test]
fn vault_index_can_be_created() {
    let vi = VaultIndex::empty();
    assert_eq!(vi.notes().len(), 0);
    assert_eq!(vi.tree().get_root().name, "root");
}

#[test]
fn vault_index_can_get_item() {
    let vi = test_vault();
    let fc = vi.get_item("This is the Test Vault");
    assert_eq!(fc.is_some(), true);
    match fc.unwrap() {
        VaultItem::Note(n) => assert_eq!(n.tags, names(&["test"])),
        _ => panic!("Item wasn't a note!"),
    }
}

#[test]
fn vault_index_can_get_item_dir_path() {
    let vi = test_vault();
    let fc = vi.get_item("Folder A/Lorem Ipsum");
    assert_eq!(fc.is_some(), true);
    assert_eq!(fc.unwrap().unwrap_note().name, "Lorem Ipsum");
}

#[test]
fn vault_index_invalid_file_get_path() {
    let vi = test_vault();
    let fc = vi.get_item("Folder Z/Recarm");
    assert_eq!(fc.is_none(), true);
}

#[test]
fn vault_index_can_dataview() {
    let vi = test_vault();
    let out = vi.query("LIST FROM #Lorem AND (#Ipsum OR #test)");
    assert_eq!(listed(&out), names(&["Lorem Ipsum"]));
}

#[test]
fn tag_prefix_expansion() {
    assert_eq!(tag_splitter("a/b/c".to_string()), names(&["a", "a/b", "a/b/c"]));
    assert_eq!(tag_splitter("plain".to_string()), names(&["plain"]));
    assert_eq!(tag_splitter("a//b".to_string()), names(&["a", "a/", "a//b"]));
}

#[test]
fn or_with_absent_side_is_identity() {
    let l = names(&["b", "a", "b", "c"]);
    assert_eq!(eval_or(None, Some(l.clone())), Some(names(&["a", "b", "c"])));
    assert_eq!(eval_or(Some(l), None), Some(names(&["a", "b", "c"])));
    assert_eq!(eval_or(None, None), None);
    assert_eq!(eval_or(Some(vec![]), None), None);
}

#[test]
fn or_sorts_and_merges() {
    let r = eval_or(Some(names(&["Zed", "apple"])), Some(names(&["Mango", "apple"])));
    assert_eq!(r, Some(names(&["Mango", "Zed", "apple"])));
}

#[test]
fn and_with_absent_side_is_absent() {
    assert_eq!(eval_and(Some(names(&["a"])), None), None);
    assert_eq!(eval_and(None, Some(names(&["a"]))), None);
    assert_eq!(eval_and(None, None), None);
}

#[test]
fn and_keeps_left_order() {
    let r = eval_and(Some(names(&["b", "a", "c"])), Some(names(&["c", "a"])));
    assert_eq!(r, Some(names(&["a", "c"])));
    assert_eq!(eval_and(Some(names(&["a"])), Some(names(&["b"]))), None);
}

#[test]
fn tree_depths_and_preorder() {
    let mut t = Tree::new();
    assert_eq!(t.get_root().depth, 0);
    let a = t.add_child(0, "a".to_string(), ItemType::Folder).unwrap();
    let b = t.add_child(0, "b".to_string(), ItemType::Folder).unwrap();
    let a1 = t.add_child(a, "a1".to_string(), ItemType::Note).unwrap();
    let b1 = t.add_child(b, "b1".to_string(), ItemType::File).unwrap();
    let a2 = t.add_child(a, "a2".to_string(), ItemType::Note).unwrap();
    assert_eq!((a, b, a1, b1, a2), (1, 2, 3, 4, 5));
    assert_eq!(t.get_node(a1).unwrap().depth, 2);
    assert_eq!(t.get_node(b).unwrap().depth, 1);
    assert_eq!(t.get_node(a).unwrap().children, vec![3, 5]);
    assert!(t.add_child(9, "x".to_string(), ItemType::Note).is_none());
    assert!(t.has_node(5) && !t.has_node(6));
    let order: Vec<String> = t.as_flat_vec(0).iter().map(|n| n.name.clone()).collect();
    assert_eq!(order, names(&["root", "a", "a1", "a2", "b", "b1"]));
    let sub: Vec<usize> = t.as_flat_vec(a).iter().map(|n| n.index).collect();
    assert_eq!(sub, vec![1, 3, 5]);
}

#[test]
fn tree_node_can_be_changed() {
    let mut t = Tree::new();
    t.get_node_mut(0).unwrap().name = "top".to_string();
    assert_eq!(t.get_root().name, "top");
    assert!(t.get_node_mut(3).is_none());
}

#[test]
fn path_forms_resolve_to_same_note() {
    let mut vi = VaultIndex::with_root("V".to_string(), "/v".to_string());
    let d = vi.add_folder(0, "Dir".to_string(), "/v/Dir".to_string()).unwrap();
    vi.add_note(d, "N.md".to_string(), "/v/Dir/N.md".to_string(), "text").unwrap();
    let by_name = vi.get_item("N").unwrap().unwrap_note();
    let by_slash = vi.get_item("Dir/N").unwrap().unwrap_note();
    let by_backslash = vi.get_item("Dir\\N").unwrap().unwrap_note();
    assert!(std::ptr::eq(by_name, by_slash));
    assert!(std::ptr::eq(by_name, by_backslash));
    assert_eq!(vi.get_note("Dir/N").unwrap().local_path, "Dir\\N");
    assert!(vi.get_item("Dir/M").is_none());
}

#[test]
fn query_end_to_end() {
    let vi = abc_vault();
    assert_eq!(listed(&vi.query("LIST FROM #x AND #y")), names(&["C"]));
    assert_eq!(listed(&vi.query("LIST FROM #x OR #y")), names(&["A", "B", "C"]));
    assert_eq!(listed(&vi.query("LIST FROM #x AND (#y OR #z)")), names(&["C"]));
    assert_eq!(listed(&vi.query("LIST FROM #nothing")), Vec::<String>::new());
}

#[test]
fn query_operators_share_precedence() {
    let vi = abc_vault();
    // (#x AND #y) OR #y, read from the left
    assert_eq!(listed(&vi.query("list from #x and #y or #y")), names(&["B", "C"]));
    // #y OR (#x AND #y) would give the same; #x AND (#y OR #y) gives C only
    assert_eq!(listed(&vi.query("LIST FROM #x AND (#y OR #y)")), names(&["C"]));
}

#[test]
fn malformed_query_gives_diagnostics() {
    let vi = abc_vault();
    match vi.query("LIST FORM #x") {
        QueryOutput::Error(msgs) => {
            assert!(!msgs.is_empty());
            assert_eq!(msgs[0], "query could not be read at character 5");
        }
        other => panic!("expected diagnostics, got {:?}", other),
    }
    assert!(matches!(vi.query("LIST FROM (#x"), QueryOutput::Error(_)));
    assert!(matches!(vi.query("LIST FROM #x $"), QueryOutput::Error(_)));
    assert!(matches!(vi.query("LISTFROM #x"), QueryOutput::Error(_)));
    assert!(matches!(vi.query(""), QueryOutput::Error(_)));
}

#[test]
fn parser_builds_left_leaning_tree() {
    match parse("  LIST FROM #a AND #b OR #c ") {
        Ok(Expr::List { from }) => match *from {
            Expr::From(inner) => match *inner {
                Expr::Or(l, r) => {
                    assert!(matches!(*l, Expr::And(_, _)));
                    assert!(matches!(*r, Expr::Source(DataSource::Tag(ref t)) if t == "c"));
                }
                other => panic!("unexpected {:?}", other),
            },
            other => panic!("unexpected {:?}", other),
        },
        other => panic!("unexpected {:?}", other),
    }
    assert!(matches!(parse("LIST FROM #a-b/c_d"), Ok(_)));
    assert_eq!(parse("LIST FROM").err(), Some(9));
    assert_eq!(parse("LIST FROM #a )").err(), Some(13));
}

#[test]
fn unsupported_sources_fail_explicitly() {
    let vi = abc_vault();
    let mut qs = QueryStruct::new();
    let folder = Expr::Source(DataSource::Folder("Dir".to_string()));
    assert_eq!(eval(&folder, &vi, &mut qs).err(), Some(vault_dweller::EvalError::UnsupportedSource));
    let neg = Expr::Negate(Box::new(Expr::Source(DataSource::Tag("x".to_string()))));
    assert_eq!(eval(&neg, &vi, &mut qs).err(), Some(vault_dweller::EvalError::Negation));
    assert_eq!(eval(&Expr::Invalid, &vi, &mut qs).err(), Some(vault_dweller::EvalError::Invalid));
}

#[test]
fn table_output_is_reported_unsupported() {
    let mut qs = QueryStruct::new();
    qs.output_type = QueryStructType::Table;
    match qs.build_output() {
        QueryOutput::Error(msgs) => assert_eq!(msgs, names(&["tables are not supported yet"])),
        other => panic!("unexpected {:?}", other),
    }
}

#[test]
fn tags_skip_code_and_word_hashes() {
    let text = "Intro #one and word#no (#two)\n```\n#hidden\n```\nend `#inline` #proj/sub";
    let plain = erase_code(text);
    assert!(!plain.contains("#hidden"));
    assert!(!plain.contains("#inline"));
    assert_eq!(extract_tags(&plain), names(&["one", "proj", "proj/sub", "two)"]));
    assert_eq!(extract_tags("#b #a #b"), names(&["a", "b"]));
}

#[test]
fn tags_before_inline_code_are_kept() {
    let plain = erase_code("#t `x` #u");
    assert_eq!(plain, "#t  #u");
    assert_eq!(extract_tags(&plain), names(&["t", "u"]));
    let unclosed = erase_code("#a `b\n#c` d");
    assert_eq!(unclosed, "#a `b\n#c` d");
    assert_eq!(extract_tags(&unclosed), names(&["a", "c`"]));
}

#[test]
fn tags_between_fenced_blocks_are_kept() {
    let text = "#a\n```\n#code1\n```\nmiddle #keep\n```\n#code2\n```\n#b";
    let plain = erase_code(text);
    assert_eq!(plain, "#a\n\nmiddle #keep\n\n#b");
    assert_eq!(extract_tags(&plain), names(&["a", "b", "keep"]));
    // an unclosed fence stays; its first two backticks read as an empty inline span
    assert_eq!(erase_code("```\nopen #x"), "`\nopen #x");
}

#[test]
fn note_records_tags_properties_and_paths() {
    let vi = test_vault();
    let n = vi.get_note("Lorem Ipsum").unwrap();
    assert_eq!(n.tags, names(&["Ipsum", "Lorem"]));
    assert_eq!(n.file_type, "md");
    assert_eq!(n.local_path, "Folder A\\Lorem Ipsum");
    assert_eq!(n.properties.len(), 2);
    assert_eq!(n.properties[0].0, "title");
    assert!(matches!(&n.properties[0].1, Property::Text(t) if t == "Lorem"));
    assert!(matches!(&n.properties[1].1, Property::Number(Number::Integer(3))));
    assert_eq!(vi.properties(), &names(&["title", "count"]));
    match vi.get_item("Folder A/picture.png").unwrap() {
        VaultItem::File(f) => assert_eq!(f.file_type, "png"),
        _ => panic!("Item wasn't a file!"),
    }
    assert_eq!(vi.folders()[0].local_path, "Folder A");
    assert_eq!(vi.tag_notes("Lorem"), Some(names(&["Lorem Ipsum"])));
    assert_eq!(vi.tag_notes("absent"), None);
    assert_eq!(vi.tag_keys(), &names(&["test", "Ipsum", "Lorem"]));
    assert_eq!(
        vi.path_keys(),
        &names(&["This is the Test Vault", "Folder A\\Lorem Ipsum", "Folder A\\picture.png"])
    );
    assert_eq!(vi.path_names(), &names(&["This is the Test Vault", "Lorem Ipsum", "picture.png"]));
}

#[test]
fn later_note_of_same_name_replaces_earlier() {
    let mut vi = VaultIndex::with_root("V".to_string(), "/v".to_string());
    let d = vi.add_folder(0, "D".to_string(), "/v/D".to_string()).unwrap();
    vi.add_note(0, "N.md".to_string(), "/v/N.md".to_string(), "#first").unwrap();
    vi.add_note(d, "N.md".to_string(), "/v/D/N.md".to_string(), "#second").unwrap();
    assert_eq!(vi.notes().len(), 1);
    assert_eq!(vi.get_note("N").unwrap().path, "/v/D/N.md");
    assert_eq!(vi.tag_notes("first"), Some(names(&["N"])));
    assert_eq!(vi.tag_notes("second"), Some(names(&["N"])));
    assert!(vi.add_note(99, "X.md".to_string(), "/v/X.md".to_string(), "").is_none());
    let n = vi.add_note(0, "M.md".to_string(), "/v/M.md".to_string(), "").unwrap();
    assert!(vi.add_note(n, "Y.md".to_string(), "/v/Y.md".to_string(), "").is_none());
}

#[test]
fn front_matter_values_become_properties() {
    let text = "---\nname: Ann\nage: 42\nratio: 0.5\ndone: true\nitems: [1, two]\nnothing: ~\n---\nbody";
    let props = front_matter_properties(text);
    let keys: Vec<&str> = props.iter().map(|p| p.0.as_str()).collect();
    assert_eq!(keys, vec!["name", "age", "ratio", "done", "items", "nothing"]);
    assert!(matches!(&props[0].1, Property::Text(t) if t == "Ann"));
    assert!(matches!(&props[1].1, Property::Number(Number::Integer(42))));
    assert!(matches!(&props[2].1, Property::Number(Number::Real(r)) if r == "0.5"));
    assert!(matches!(&props[3].1, Property::Checkbox(true)));
    match &props[4].1 {
        Property::List(items) => {
            assert_eq!(items.len(), 2);
            assert!(matches!(&items[0], Property::Number(Number::Integer(1))));
            assert!(matches!(&items[1], Property::Text(t) if t == "two"));
        }
        other => panic!("unexpected {:?}", other),
    }
    assert!(matches!(&props[5].1, Property::Unknown));
}

#[test]
fn front_matter_needs_leading_and_closing_dashes() {
    assert!(front_matter_properties("text\n---\na: 1\n---").is_empty());
    assert!(front_matter_properties("---\na: 1\n").is_empty());
    assert!(front_matter_properties("---\n- 1\n- 2\n---").is_empty());
    assert_eq!(front_matter_properties("---\na: 1\n---").len(), 1);
}

#[test]
fn entries_are_classified() {
    assert_eq!(classify(".obsidian", true, false), EntryKind::Skip);
    assert_eq!(classify(".obsidian", true, true), EntryKind::Folder);
    assert_eq!(classify("notes", true, false), EntryKind::Folder);
    assert_eq!(classify("a.md", false, false), EntryKind::Note);
    assert_eq!(classify("a.md.png", false, false), EntryKind::File);
    assert_eq!(classify(".md", false, false), EntryKind::File);
    assert_eq!(classify("README", false, false), EntryKind::File);
}

#[test]
fn file_names_split_at_last_dot() {
    assert_eq!(split_file_name("a.tar.gz"), ("a.tar".to_string(), "gz".to_string()));
    assert_eq!(split_file_name(".hidden"), (".hidden".to_string(), String::new()));
    assert_eq!(split_file_name("plain"), ("plain".to_string(), String::new()));
    assert_eq!(split_file_name("x."), ("x".to_string(), String::new()));
}

#[test]
fn unicode_tags_are_read() {
    let vi = {
        let mut vi = VaultIndex::with_root("V".to_string(), "/v".to_string());
        vi.add_note(0, "U.md".to_string(), "/v/U.md".to_string(), "#café").unwrap();
        vi
    };
    assert_eq!(listed(&vi.query("LIST FROM #café")), names(&["U"]));
}
