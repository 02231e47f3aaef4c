use zenith_scene::imports::{ImportGraph, ImportSource, ImportedDocument, parse_import_source};

#[test]
fn component_source_is_parsed() {
    match parse_import_source("brand#component.button") {
        ImportSource::Component { import_id, component_id } => {
            assert_eq!(import_id, "brand");
            assert_eq!(component_id, "button");
        }
        _ => panic!("expected a component source"),
    }
}

#[test]
fn splits_at_the_first_hash() {
    match parse_import_source("a#component.b#c") {
        ImportSource::Component { import_id, component_id } => {
            assert_eq!(import_id, "a");
            assert_eq!(component_id, "b#c");
        }
        _ => panic!("expected a component source"),
    }
}

#[test]
fn other_targets_are_unsupported() {
    match parse_import_source("lib#style.heading") {
        ImportSource::UnsupportedTarget { import_id, target } => {
            assert_eq!(import_id, "lib");
            assert_eq!(target, "style.heading");
        }
        _ => panic!("expected an unsupported target"),
    }
    match parse_import_source("lib#component") {
        ImportSource::UnsupportedTarget { import_id, target } => {
            assert_eq!(import_id, "lib");
            assert_eq!(target, "component");
        }
        _ => panic!("expected an unsupported target"),
    }
}

#[test]
fn malformed_sources_are_invalid() {
    for s in ["", "lib", "#component.x", "lib#", "lib#component.", "#"] {
        assert!(matches!(parse_import_source(s), ImportSource::Invalid), "{s}");
    }
}

#[test]
fn non_ascii_ids_are_kept_whole() {
    match parse_import_source("bibliothèque#component.bouton-élevé") {
        ImportSource::Component { import_id, component_id } => {
            assert_eq!(import_id, "bibliothèque");
            assert_eq!(component_id, "bouton-élevé");
        }
        _ => panic!("expected a component source"),
    }
}

#[test]
fn graph_keeps_ids_sorted_and_replaces_duplicates() {
    let mut g: ImportGraph<u32> = ImportGraph::new();
    assert!(g.documents().is_empty());
    g.insert("zeta".to_owned(), 1);
    g.insert("alpha".to_owned(), 2);
    g.insert("mid".to_owned(), 3);
    g.insert("alpha".to_owned(), 4);
    let ids: Vec<&str> = g.documents().iter().map(|(id, _)| id.as_str()).collect();
    assert_eq!(ids, vec!["alpha", "mid", "zeta"]);
    let docs: Vec<u32> = g.documents().iter().map(|(_, d)| d.document).collect();
    assert_eq!(docs, vec![4, 3, 1]);
}

#[test]
fn with_document_builds_the_same_graph_as_insert() {
    let g = ImportGraph::new()
        .with_document("b".to_owned(), 'b')
        .with_document("a".to_owned(), 'a')
        .with_document("ab".to_owned(), 'x');
    let entries: Vec<(&str, char)> =
        g.documents().iter().map(|(id, d)| (id.as_str(), d.document)).collect();
    assert_eq!(entries, vec![("a", 'a'), ("ab", 'x'), ("b", 'b')]);
}

#[test]
fn graph_orders_ids_by_code_point_like_str() {
    let mut g: ImportGraph<u8> = ImportGraph::default();
    for (i, id) in ["é", "Z", "a", "aa", "", "A"].iter().enumerate() {
        g.insert((*id).to_owned(), i as u8);
    }
    let ids: Vec<String> = g.documents().iter().map(|(id, _)| id.clone()).collect();
    let mut sorted = ids.clone();
    sorted.sort();
    assert_eq!(ids, sorted);
    assert_eq!(ids.len(), 6);
}

#[test]
fn imported_document_wraps_its_document() {
    assert_eq!(ImportedDocument::new(7u8).document, 7);
}

#[test]
fn cloned_graph_keeps_ids_and_documents() {
    let g = ImportGraph::new()
        .with_document("b".to_string(), 2u32)
        .with_document("a".to_string(), 1u32);
    let h = g.clone();
    let ids: Vec<&str> = h.documents().iter().map(|(id, _)| id.as_str()).collect();
    assert_eq!(ids, vec!["a", "b"]);
    let docs: Vec<u32> = h.documents().iter().map(|(_, d)| d.document).collect();
    assert_eq!(docs, vec![1, 2]);
    assert_eq!(g.documents().len(), 2);
}
