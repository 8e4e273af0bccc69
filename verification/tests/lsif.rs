use dukememory::file_paths::{file_stem, join_path, strip_path_prefix};
use dukememory::json::Json;
use dukememory::lsif_graph::{parse_lsif, LsifGraph};
use dukememory::lsif_index::{
    import_lsif_graph, import_rust_analyzer_lsif, last_identifier_segment, lsif_source_paths,
    LsifImport, SourceCache,
};
use dukememory::records::CodeSymbol;
use dukememory::uris::{percent_decode, uri_to_relative_path};

const ROOT: &str = "/work/lsif";
const SOURCE: &str = "fn target() {}\n\nfn caller() {\n    target();\n}\n";

fn symbol(id: &str, name: &str, start_line: u32, end_line: u32) -> CodeSymbol {
    CodeSymbol {
        id: id.to_string(),
        project_id: "lsif-test".to_string(),
        file_path: "src/lib.rs".to_string(),
        language: "rust".to_string(),
        name: name.to_string(),
        kind: "function".to_string(),
        signature: format!("fn {name}()"),
        body: format!("fn {name}() {{}}"),
        start_line,
        end_line,
        parent_id: None,
    }
}

fn symbols() -> Vec<CodeSymbol> {
    vec![
        symbol("sym_target", "target", 1, 1),
        symbol("sym_caller", "caller", 3, 5),
    ]
}

fn minimal_lsif(uri: &str) -> String {
    format!(
        r#"{{"id":1,"type":"vertex","label":"document","uri":"{uri}","languageId":"rust"}}
{{"id":2,"type":"vertex","label":"range","start":{{"line":0,"character":3}},"end":{{"line":0,"character":9}}}}
{{"id":3,"type":"vertex","label":"range","start":{{"line":3,"character":4}},"end":{{"line":3,"character":10}}}}
{{"id":4,"type":"vertex","label":"resultSet"}}
{{"id":5,"type":"edge","label":"contains","outV":1,"inVs":[2,3]}}
{{"id":6,"type":"edge","label":"next","outV":2,"inV":4}}
{{"id":7,"type":"edge","label":"next","outV":3,"inV":4}}
{{"id":8,"type":"vertex","label":"definitionResult"}}
{{"id":9,"type":"edge","label":"textDocument/definition","outV":4,"inV":8}}
{{"id":10,"type":"edge","label":"item","outV":8,"document":1,"property":"definitions","inVs":[2]}}
{{"id":11,"type":"vertex","label":"referenceResult"}}
{{"id":12,"type":"edge","label":"textDocument/references","outV":4,"inV":11}}
{{"id":13,"type":"edge","label":"item","outV":11,"document":1,"property":"references","inVs":[3]}}
{{"id":14,"type":"vertex","label":"moniker","scheme":"rust-analyzer","identifier":"lsif_test::target","unique":"scheme","kind":"export"}}
{{"id":15,"type":"edge","label":"moniker","outV":4,"inV":14}}
"#
    )
}

fn import(lsif: &str, sources: &SourceCache) -> Result<LsifImport, String> {
    import_rust_analyzer_lsif(
        "lsif-test",
        ROOT,
        "test",
        lsif,
        &symbols(),
        2,
        3,
        sources,
    )
}

#[test]
fn imports_ra_reference_from_minimal_lsif() {
    let lsif = minimal_lsif("file:///work/lsif/src/lib.rs");
    let mut sources = SourceCache::new();
    sources.insert("src/lib.rs", SOURCE);

    let import = import(&lsif, &sources).unwrap();
    let report = &import.report;
    assert!(import.failure.is_none());
    assert_eq!(report.target_symbols_resolved, 1);
    assert_eq!(report.relations_imported, 1);
    assert_eq!(report.call_relations_imported, 1);
    assert_eq!(report.documents, 1);
    assert_eq!(report.ranges, 2);
    assert_eq!(report.definitions_seen, 1);
    assert_eq!(report.reference_ranges_seen, 1);
    assert_eq!(report.relations_skipped, 0);
    assert_eq!(report.stale_relations_removed, 5);
    assert_eq!(report.root_path, ROOT);
    assert_eq!(report.source, "test");

    let callers = import
        .relations
        .iter()
        .filter(|relation| relation.relation_kind == "ra_call")
        .collect::<Vec<_>>();
    assert_eq!(callers.len(), 1);
    assert_eq!(callers[0].relation_kind, "ra_call");
    assert_eq!(callers[0].from_symbol_id.as_deref(), Some("sym_caller"));
    assert_eq!(callers[0].target_symbol_id.as_deref(), Some("sym_target"));

    assert_eq!(import.relations.len(), 2);
    assert_eq!(import.relations[0].relation_kind, "ra_reference");
    assert_eq!(import.relations[0].target_name, "lsif_test::target");
    assert_eq!(import.relations[0].from_file_path, "src/lib.rs");
    assert!(import.relations[0].id.starts_with("raref_"));
    assert_eq!(import.relations[0].id.len(), 6 + 64);
    assert_ne!(import.relations[0].id, import.relations[1].id);
}

#[test]
fn an_import_stays_in_its_project() {
    let lsif = minimal_lsif("file:///work/lsif/src/lib.rs");
    let mut sources = SourceCache::new();
    sources.insert("src/lib.rs", SOURCE);
    let ids: Vec<Option<String>> = symbols().into_iter().map(|s| Some(s.id)).collect();
    let relations = import(&lsif, &sources).unwrap().relations;
    assert_eq!(relations.len(), 2);
    for relation in relations {
        assert_eq!(relation.project_id, "lsif-test");
        assert!(ids.contains(&relation.target_symbol_id));
        assert!(ids.contains(&relation.from_symbol_id));
    }
}

#[test]
fn relation_ids_are_digests_of_their_ends() {
    let lsif = minimal_lsif("file:///work/lsif/src/lib.rs");
    let mut sources = SourceCache::new();
    sources.insert("src/lib.rs", SOURCE);
    let import = import(&lsif, &sources).unwrap();
    let key = "ra_reference:lsif-test:src/lib.rs:sym_caller:sym_target:3";
    assert_eq!(
        import.relations[0].id,
        format!("raref_{}", blake3::hash(key.as_bytes()).to_hex())
    );
}

#[test]
fn an_import_names_the_sources_it_needs() {
    let lsif = minimal_lsif("file:///work/lsif/src/lib.rs");
    assert_eq!(
        lsif_source_paths(&lsif, ROOT, &symbols()).unwrap(),
        vec!["src/lib.rs".to_string()]
    );
}

#[test]
fn an_import_stops_where_a_source_cannot_be_read() {
    let lsif = minimal_lsif("file:///work/lsif/src/lib.rs");
    let import = import(&lsif, &SourceCache::new()).unwrap();
    assert_eq!(
        import.failure.as_deref(),
        Some("failed to read source /work/lsif/src/lib.rs")
    );
    assert_eq!(import.relations.len(), 1);
    assert_eq!(import.report.relations_imported, 1);
    assert_eq!(import.report.call_relations_imported, 0);
}

#[test]
fn documents_outside_the_root_give_nothing() {
    for uri in ["file:///elsewhere/src/lib.rs", "untitled:src/lib.rs"] {
        let lsif = minimal_lsif(uri);
        let import = import(&lsif, &SourceCache::new()).unwrap();
        assert_eq!(import.relations.len(), 0);
        assert_eq!(import.report.definitions_seen, 1);
        assert_eq!(import.report.target_symbols_resolved, 0);
        assert!(import.report.target_symbols_resolved <= import.report.definitions_seen);
        assert_eq!(import.report.reference_ranges_seen, 0);
    }
}

#[test]
fn a_reference_without_a_call_stays_a_reference() {
    let lsif = minimal_lsif("file:///work/lsif/src/lib.rs");
    let mut sources = SourceCache::new();
    sources.insert("src/lib.rs", "fn target() {}\n\nfn caller() {\n    target ;\n}\n");
    let import = import(&lsif, &sources).unwrap();
    assert_eq!(import.report.relations_imported, 1);
    assert_eq!(import.report.call_relations_imported, 0);
}

#[test]
fn a_definition_is_no_reference_to_itself() {
    let lsif = minimal_lsif("file:///work/lsif/src/lib.rs").replace(
        "\"property\":\"references\",\"inVs\":[3]",
        "\"property\":\"references\",\"inVs\":[2,3,99]",
    );
    let mut sources = SourceCache::new();
    sources.insert("src/lib.rs", SOURCE);
    let import = import(&lsif, &sources).unwrap();
    assert_eq!(import.report.reference_ranges_seen, 3);
    assert_eq!(import.report.relations_skipped, 2);
    assert_eq!(import.report.relations_imported, 1);
    assert_eq!(
        import.relations.len(),
        import.report.relations_imported + import.report.call_relations_imported
    );
}

#[test]
fn lsif_errors_name_what_is_missing() {
    let error = |line: &str| parse_lsif(line).err().unwrap();
    assert!(error("\n\nnot json\n").starts_with("failed to parse LSIF JSON line 3: "));
    assert_eq!(
        error(r#"{"type":"vertex","label":"document"}"#),
        "LSIF value is missing numeric field `id`"
    );
    assert_eq!(
        error(r#"{"type":"vertex","label":"range","id":1}"#),
        "LSIF range is missing start"
    );
    assert_eq!(
        error(r#"{"type":"vertex","label":"range","id":1,"start":{"line":0}}"#),
        "LSIF range is missing end"
    );
    assert_eq!(
        error(r#"{"type":"vertex","label":"range","id":1,"start":{},"end":{}}"#),
        "LSIF value is missing numeric field `line`"
    );
    assert_eq!(
        error(r#"{"type":"vertex","label":"range","id":1,"start":{"line":0},"end":{"line":0}}"#),
        "LSIF value is missing numeric field `character`"
    );
    assert_eq!(
        error(r#"{"type":"edge","label":"contains","outV":1}"#),
        "LSIF value is missing array field `inVs`"
    );
    assert_eq!(
        error(r#"{"type":"edge","label":"contains","outV":1,"inVs":[1,"a"]}"#),
        "LSIF array contains a non-numeric id"
    );
    assert_eq!(
        error(r#"{"type":"edge","label":"next","outV":1,"inV":-1}"#),
        "LSIF value is missing numeric field `inV`"
    );
}

#[test]
fn records_of_other_kinds_are_passed_over() {
    let graph = parse_lsif(
        "{\"type\":\"vertex\"}\n{\"type\":\"edge\",\"label\":\"belongsTo\"}\n[1]\n  \n",
    )
    .unwrap();
    assert_eq!(graph.documents.entries.len(), 0);
}

#[test]
fn records_can_be_added_one_by_one() {
    let mut graph = LsifGraph::new();
    let record = Json::Object(vec![
        ("type".to_string(), Json::Text("vertex".to_string())),
        ("label".to_string(), Json::Text("document".to_string())),
        ("id".to_string(), Json::Number(Some(7))),
        ("uri".to_string(), Json::Text("file:///a".to_string())),
    ]);
    graph.add_record(&record).unwrap();
    assert_eq!(graph.documents.entries, vec![(7, "file:///a".to_string())]);
    let bad = Json::Object(vec![
        ("type".to_string(), Json::Text("vertex".to_string())),
        ("label".to_string(), Json::Text("moniker".to_string())),
        ("id".to_string(), Json::Number(None)),
    ]);
    assert_eq!(
        graph.add_record(&bad).unwrap_err(),
        "LSIF value is missing numeric field `id`"
    );
}

#[test]
fn the_graph_is_imported_as_the_dump_is() {
    let graph = parse_lsif(&minimal_lsif("file:///work/lsif/src/lib.rs")).unwrap();
    let mut sources = SourceCache::new();
    sources.insert("src/lib.rs", SOURCE);
    let import = import_lsif_graph(
        &graph,
        "lsif-test",
        ROOT,
        "test",
        &symbols(),
        0,
        0,
        &sources,
    );
    assert_eq!(import.relations.len(), 2);
}

#[test]
fn ranges_on_the_last_line_are_too_far() {
    let lsif = r#"{"id":2,"type":"vertex","label":"range","start":{"line":4294967295},"end":{"line":0,"character":9}}"#;
    assert_eq!(
        import(lsif, &SourceCache::new()).unwrap_err(),
        "LSIF dump is too large to import"
    );
}

#[test]
fn identifiers_end_with_a_name() {
    assert_eq!(last_identifier_segment("a::b::c").as_deref(), Some("c"));
    assert_eq!(last_identifier_segment("a::b::impl").as_deref(), Some("b"));
    assert_eq!(last_identifier_segment("crate::impl"), None);
    assert_eq!(last_identifier_segment("a:::b").as_deref(), Some("b"));
    assert_eq!(last_identifier_segment("a::").as_deref(), Some(""));
    assert_eq!(last_identifier_segment("").as_deref(), Some(""));
}

#[test]
fn percent_escapes_are_decoded() {
    assert_eq!(percent_decode("/a%20b"), "/a b");
    assert_eq!(percent_decode("%D0%9F"), "П");
    assert_eq!(percent_decode("%+1z"), "\u{1}z");
    assert_eq!(percent_decode("%2"), "%2");
    assert_eq!(percent_decode("a%41"), "aA");
    assert_eq!(percent_decode("%zz"), "%zz");
    assert_eq!(percent_decode("plain"), "plain");
    assert_eq!(percent_decode("%ff"), "\u{fffd}");
}

#[test]
fn addresses_are_read_below_the_root() {
    let at = |uri: &str| uri_to_relative_path(uri, "/work/lsif");
    assert_eq!(at("file:///work/lsif/src/lib.rs").as_deref(), Some("src/lib.rs"));
    assert_eq!(at("file:///work/lsif/a%20b.rs").as_deref(), Some("a b.rs"));
    assert_eq!(at("file:///work/lsif/./a\\b.rs").as_deref(), Some("a/b.rs"));
    assert_eq!(at("file:///work/lsif").as_deref(), Some(""));
    assert_eq!(at("file:///work/lsif2/a.rs"), None);
    assert_eq!(at("http://work/lsif/a.rs"), None);
}

#[test]
fn prefixes_are_taken_component_by_component() {
    let below = |path: &str, base: &str| strip_path_prefix(path, base);
    assert_eq!(below("/a/b/c", "/a").as_deref(), Some("b/c"));
    assert_eq!(below("/a//./b/c/", "/a/").as_deref(), Some("b/c"));
    assert_eq!(below("/a/b", "/a/b").as_deref(), Some(""));
    assert_eq!(below("/a/b", "/").as_deref(), Some("a/b"));
    assert_eq!(below("a/b/", "").as_deref(), Some("a/b"));
    assert_eq!(below("./a", ".").as_deref(), Some("a"));
    assert_eq!(below("/ab", "/a"), None);
    assert_eq!(below("a/b", "/a"), None);
    for (path, base) in [
        ("/a/b/c", "/a"),
        ("/a//./b/c/", "/a/"),
        ("/a/b", "/"),
        ("a/b/", ""),
        ("./a", "."),
        ("./a", ""),
        ("../x/y", ".."),
        ("/ab", "/a"),
        ("a/./b/.", "a"),
    ] {
        let std = std::path::Path::new(path)
            .strip_prefix(base)
            .ok()
            .map(|rest| rest.to_string_lossy().to_string());
        assert_eq!(below(path, base), std, "{path} below {base}");
    }
}

#[test]
fn paths_are_joined_and_stemmed() {
    assert_eq!(join_path("/a", "b"), "/a/b");
    assert_eq!(join_path("/a/", "b"), "/a/b");
    assert_eq!(join_path("", "b"), "b");
    assert_eq!(join_path("/a", "/b"), "/b");
    for path in ["a/b.json", "b.tar.gz", ".hidden", "/", "..", "name", "x/.a.b"] {
        let std = std::path::Path::new(path)
            .file_stem()
            .map(|stem| stem.to_string_lossy().to_string());
        assert_eq!(file_stem(path), std, "{path}");
    }
}
