use corten_devtools::source_map::{
    decode_base64, decode_vlq, find_closest_mapping, mappings_fit, parse_vlq_mappings, Position, RawSourceMap, SourceMap,
    SourceMapError,
};

fn string_list(v: &serde_json::Value, key: &str) -> Vec<String> {
    match v.get(key).and_then(|x| x.as_array()) {
        Some(items) => items
            .iter()
            .map(|x| x.as_str().unwrap_or("").to_string())
            .collect(),
        None => Vec::new(),
    }
}

fn raw_from_json(text: &str) -> RawSourceMap {
    let v: serde_json::Value = serde_json::from_str(text).unwrap();
    let sources_content = v.get("sourcesContent").and_then(|x| x.as_array()).map(|items| {
        items
            .iter()
            .map(|x| x.as_str().map(|s| s.to_string()))
            .collect::<Vec<Option<String>>>()
    });
    RawSourceMap {
        version: v.get("version").and_then(|x| x.as_u64()).unwrap_or(0) as u32,
        file: v.get("file").and_then(|x| x.as_str()).map(|s| s.to_string()),
        source_root: v.get("sourceRoot").and_then(|x| x.as_str()).map(|s| s.to_string()),
        sources: string_list(&v, "sources"),
        sources_content,
        names: string_list(&v, "names"),
        mappings: v
            .get("mappings")
            .and_then(|x| x.as_str())
            .unwrap_or("")
            .to_string(),
    }
}

fn parse(text: &str) -> Result<SourceMap, SourceMapError> {
    let raw = raw_from_json(text);
    assert!(mappings_fit(&raw.mappings));
    SourceMap::from_raw(raw)
}

#[test]
fn test_position_new() {
    let pos = Position::new(10, 5);
    assert_eq!(pos.line, 10);
    assert_eq!(pos.column, 5);
}

#[test]
fn test_decode_vlq_simple() {
    let result = decode_vlq("A").unwrap();
    assert_eq!(result, vec![0]);

    let result = decode_vlq("C").unwrap();
    assert_eq!(result, vec![1]);

    let result = decode_vlq("D").unwrap();
    assert_eq!(result, vec![-1]);
}

#[test]
fn test_decode_vlq_multi_digit() {
    let result = decode_vlq("gB").unwrap();
    assert_eq!(result, vec![16]);
}

#[test]
fn test_decode_vlq_multiple_values() {
    let result = decode_vlq("AACA").unwrap();
    assert_eq!(result, vec![0, 0, 1, 0]);
}

#[test]
fn test_decode_base64_simple() {
    let result = decode_base64("SGVsbG8=").unwrap();
    assert_eq!(result, b"Hello");

    let result = decode_base64("V29ybGQ=").unwrap();
    assert_eq!(result, b"World");
}

#[test]
fn test_decode_base64_no_padding() {
    let result = decode_base64("SGVsbG8").unwrap();
    assert_eq!(result, b"Hello");
}

#[test]
fn test_parse_simple_source_map() {
    let source_map_json = r#"{
        "version": 3,
        "file": "out.js",
        "sources": ["input.js"],
        "names": ["foo"],
        "mappings": "AAAA"
    }"#;

    let sm = parse(source_map_json).unwrap();
    assert_eq!(sm.version, 3);
    assert_eq!(sm.file, Some("out.js".to_string()));
    assert_eq!(sm.sources, vec!["input.js".to_string()]);
    assert_eq!(sm.names, vec!["foo".to_string()]);
}

#[test]
fn test_parse_source_map_with_source_root() {
    let source_map_json = r#"{
        "version": 3,
        "sourceRoot": "src/",
        "sources": ["app.ts"],
        "names": [],
        "mappings": "AAAA"
    }"#;

    let sm = parse(source_map_json).unwrap();
    assert_eq!(sm.source_root, Some("src/".to_string()));
}

#[test]
fn test_parse_source_map_with_sources_content() {
    let source_map_json = r#"{
        "version": 3,
        "sources": ["input.js"],
        "sourcesContent": ["const x = 1;"],
        "names": [],
        "mappings": "AAAA"
    }"#;

    let sm = parse(source_map_json).unwrap();
    let content = sm.source_content("input.js");
    assert_eq!(content, Some("const x = 1;"));
}

#[test]
fn test_original_position_lookup() {
    let source_map_json = r#"{
        "version": 3,
        "sources": ["input.js"],
        "names": ["myVar"],
        "mappings": "AAAAA"
    }"#;

    let sm = parse(source_map_json).unwrap();
    let original = sm.original_position_for(Position::new(0, 0)).unwrap();

    assert_eq!(original.source, "input.js");
    assert_eq!(original.position.line, 0);
    assert_eq!(original.position.column, 0);
    assert_eq!(original.name, Some("myVar".to_string()));
}

#[test]
fn test_generated_position_lookup() {
    let source_map_json = r#"{
        "version": 3,
        "sources": ["input.js"],
        "names": [],
        "mappings": "AAAA"
    }"#;

    let sm = parse(source_map_json).unwrap();
    let generated = sm
        .generated_position_for("input.js", Position::new(0, 0))
        .unwrap();

    assert_eq!(generated.position.line, 0);
    assert_eq!(generated.position.column, 0);
}

#[test]
fn test_multi_line_mappings() {
    let source_map_json = r#"{
        "version": 3,
        "sources": ["input.js"],
        "names": [],
        "mappings": "AAAA;AACA;AACA"
    }"#;

    let sm = parse(source_map_json).unwrap();
    assert_eq!(sm.mapping_count(), 3);

    let orig0 = sm.original_position_for(Position::new(0, 0)).unwrap();
    assert_eq!(orig0.position.line, 0);

    let orig1 = sm.original_position_for(Position::new(1, 0)).unwrap();
    assert_eq!(orig1.position.line, 1);

    let orig2 = sm.original_position_for(Position::new(2, 0)).unwrap();
    assert_eq!(orig2.position.line, 2);
}

#[test]
fn test_extract_url_single_line_comment() {
    let source = r#"
        function foo() {}
        //# sourceMappingURL=app.js.map
    "#;
    let url = SourceMap::extract_url_from_source(source);
    assert_eq!(url, Some("app.js.map".to_string()));
}

#[test]
fn test_extract_url_multi_line_comment() {
    let source = r#"
        function foo() {}
        /*# sourceMappingURL=app.js.map */
    "#;
    let url = SourceMap::extract_url_from_source(source);
    assert_eq!(url, Some("app.js.map".to_string()));
}

#[test]
fn test_extract_url_data_url() {
    let source = r#"
        function foo() {}
        //# sourceMappingURL=data:application/json;base64,eyJ2ZXJzaW9uIjozfQ==
    "#;
    let url = SourceMap::extract_url_from_source(source);
    assert!(url.is_some());
    assert!(url.unwrap().starts_with("data:"));
}

#[test]
fn test_extract_url_legacy_format() {
    let source = r#"
        function foo() {}
        //@ sourceMappingURL=legacy.js.map
    "#;
    let url = SourceMap::extract_url_from_source(source);
    assert_eq!(url, Some("legacy.js.map".to_string()));
}

#[test]
fn test_extract_url_no_url() {
    let source = r#"
        function foo() {}
        // No source map here
    "#;
    let url = SourceMap::extract_url_from_source(source);
    assert!(url.is_none());
}

#[test]
fn test_parse_inline_source_map() {
    let data_url =
        "data:application/json;base64,eyJ2ZXJzaW9uIjozLCJzb3VyY2VzIjpbImEuanMiXSwibmFtZXMiOltdLCJtYXBwaW5ncyI6IkFBQUEifQ==";
    let json = SourceMap::parse_data_url(data_url).unwrap();
    let sm = parse(&json).unwrap();

    assert_eq!(sm.version, 3);
    assert_eq!(sm.sources, vec!["a.js".to_string()]);
}

#[test]
fn test_invalid_data_url() {
    let result = SourceMap::parse_data_url("not-a-data-url");
    assert!(result.is_err());
}

#[test]
fn test_mapping_not_found() {
    let source_map_json = r#"{
        "version": 3,
        "sources": ["input.js"],
        "names": [],
        "mappings": ""
    }"#;

    let sm = parse(source_map_json).unwrap();
    let result = sm.original_position_for(Position::new(0, 0));
    assert!(result.is_err());
}

#[test]
fn test_source_not_found() {
    let source_map_json = r#"{
        "version": 3,
        "sources": ["input.js"],
        "names": [],
        "mappings": "AAAA"
    }"#;

    let sm = parse(source_map_json).unwrap();
    let result = sm.generated_position_for("nonexistent.js", Position::new(0, 0));
    assert!(matches!(result, Err(SourceMapError::SourceNotFound(_))));
}

#[test]
fn test_column_binary_search() {
    let source_map_json = r#"{
        "version": 3,
        "sources": ["input.js"],
        "names": [],
        "mappings": "AAAA,GAAG,QAAQ"
    }"#;

    let sm = parse(source_map_json).unwrap();

    let orig0 = sm.original_position_for(Position::new(0, 0)).unwrap();
    assert_eq!(orig0.position.column, 0);

    let orig3 = sm.original_position_for(Position::new(0, 3)).unwrap();
    assert!(orig3.source == "input.js");

    let orig10 = sm.original_position_for(Position::new(0, 10)).unwrap();
    assert!(orig10.source == "input.js");
}

#[test]
fn test_source_files() {
    let source_map_json = r#"{
        "version": 3,
        "sources": ["a.js", "b.js", "c.js"],
        "names": [],
        "mappings": ""
    }"#;

    let sm = parse(source_map_json).unwrap();
    assert_eq!(sm.source_files(), &["a.js", "b.js", "c.js"]);
}

#[test]
fn test_negative_vlq_values() {
    let result = decode_vlq("D").unwrap();
    assert_eq!(result, vec![-1]);

    let result = decode_vlq("F").unwrap();
    assert_eq!(result, vec![-2]);

    let result = decode_vlq("H").unwrap();
    assert_eq!(result, vec![-3]);
}

#[test]
fn vlq_rejects_characters_outside_the_alphabet() {
    assert!(matches!(decode_vlq("A!"), Err(SourceMapError::InvalidVlq(_))));
}

#[test]
fn vlq_rejects_an_unfinished_value() {
    assert!(matches!(decode_vlq("g"), Err(SourceMapError::InvalidVlq(_))));
}

#[test]
fn base64_rejects_characters_outside_the_alphabet() {
    assert!(matches!(decode_base64("SGV$"), Err(SourceMapError::InvalidBase64(_))));
}

#[test]
fn mappings_accumulate_offsets_across_segments() {
    let mappings = parse_vlq_mappings("AAAA,GAAG;AACA").unwrap();
    assert_eq!(mappings.len(), 3);
    assert_eq!(mappings[1].generated.column, 3);
    assert_eq!(mappings[1].original.unwrap().column, 3);
    assert_eq!(mappings[2].generated.line, 1);
    assert_eq!(mappings[2].generated.column, 0);
    assert_eq!(mappings[2].original.unwrap().line, 1);
}

#[test]
fn lookup_finds_the_closest_column_at_or_before() {
    let sm = parse(
        r#"{"version":3,"sources":["input.js"],"names":[],"mappings":"AAAA,GAAG,QAAQ"}"#,
    )
    .unwrap();
    let at4 = sm.original_position_for(Position::new(0, 4)).unwrap();
    assert_eq!(at4.position.column, 3);
    let at20 = sm.original_position_for(Position::new(0, 20)).unwrap();
    assert_eq!(at20.position.column, 11);
}

#[test]
fn source_root_prefixes_the_source() {
    let sm = parse(
        r#"{"version":3,"sourceRoot":"src/","sources":["app.ts"],"names":[],"mappings":"AAAA"}"#,
    )
    .unwrap();
    let original = sm.original_position_for(Position::new(0, 0)).unwrap();
    assert_eq!(original.source, "src/app.ts");
}

#[test]
fn find_source_index_reports_missing_sources() {
    let sm = parse(r#"{"version":3,"sources":["a.js"],"names":[],"mappings":""}"#).unwrap();
    assert_eq!(sm.find_source_index("a.js").unwrap(), 0);
    assert!(matches!(
        sm.find_source_index("b.js"),
        Err(SourceMapError::SourceNotFound(_))
    ));
}

#[test]
fn every_mapping_is_found_at_its_positions() {
    let text = r#"{
        "version": 3,
        "sources": ["a.js", "b.js"],
        "names": [],
        "mappings": "AAAA,EAAE,GACA;ACAA,IAAI;AACF"
    }"#;
    let sm = parse(text).unwrap();
    let mappings = parse_vlq_mappings("AAAA,EAAE,GACA;ACAA,IAAI;AACF").unwrap();
    let sources = ["a.js", "b.js"];
    for m in &mappings {
        let orig = m.original.unwrap();
        let found = sm.original_position_for(m.generated).unwrap();
        let back = sm.generated_position_for(sources[m.source_index.unwrap()], orig).unwrap();
        let again = sm.original_position_for(back.position).unwrap();
        assert_eq!(found.position.line, orig.line);
        assert_eq!(found.position.column, orig.column);
        assert_eq!(again.position.line, orig.line);
        assert_eq!(again.position.column, orig.column);
    }
}

#[test]
fn closest_mapping_never_exceeds_the_target() {
    assert_eq!(find_closest_mapping(&[(2, 7)], 0), None);
    assert_eq!(find_closest_mapping(&[], 0), None);
    assert_eq!(find_closest_mapping(&[(0, 0), (3, 1), (11, 2)], 10), Some(1));
    assert_eq!(find_closest_mapping(&[(0, 0), (3, 1), (11, 2)], 11), Some(2));
}

#[test]
fn lookup_before_the_first_column_finds_nothing() {
    let text = r#"{"version": 3, "sources": ["a.js"], "names": [], "mappings": "EAAA"}"#;
    let sm = parse(text).unwrap();
    assert!(matches!(sm.original_position_for(Position::new(0, 0)), Err(SourceMapError::MappingNotFound)));
    assert_eq!(sm.original_position_for(Position::new(0, 2)).unwrap().position.column, 0);
}

fn encode_base64(bytes: &[u8]) -> String {
    const ALPHABET: &[u8] = b"ABCDEFGHIJKLMNOPQRSTUVWXYZabcdefghijklmnopqrstuvwxyz0123456789+/";
    let mut out = String::new();
    for chunk in bytes.chunks(3) {
        let b = [chunk[0], *chunk.get(1).unwrap_or(&0), *chunk.get(2).unwrap_or(&0)];
        let n = ((b[0] as u32) << 16) | ((b[1] as u32) << 8) | b[2] as u32;
        let chars = chunk.len() + 1;
        for k in 0..4 {
            if k < chars {
                out.push(ALPHABET[((n >> (18 - 6 * k)) & 63) as usize] as char);
            } else {
                out.push('=');
            }
        }
    }
    out
}

#[test]
fn base64_text_of_any_bytes_decodes_back() {
    for len in 0..40usize {
        let bytes: Vec<u8> = (0..len).map(|i| (i * 97 + len * 13) as u8).collect();
        let padded = encode_base64(&bytes);
        let unpadded = padded.trim_end_matches('=').to_string();
        assert_eq!(decode_base64(&padded).unwrap(), bytes);
        assert_eq!(decode_base64(&unpadded).unwrap(), bytes);
    }
    let all: Vec<u8> = (0..=255u8).collect();
    assert_eq!(decode_base64(&encode_base64(&all)).unwrap(), all);
}

#[test]
fn data_url_carries_its_text() {
    let json = r#"{"version":3,"sources":["é.js"],"names":[],"mappings":"AAAA"}"#;
    let payload = encode_base64(json.as_bytes());
    for prefix in ["data:application/json;base64,", "data:;base64,"] {
        let url = format!("{}{}", prefix, payload);
        assert_eq!(SourceMap::parse_data_url(&url).unwrap(), json);
    }
}

#[test]
fn bad_data_url_is_quoted_by_whole_characters() {
    let url = "€".repeat(20);
    match SourceMap::parse_data_url(&url) {
        Err(SourceMapError::InvalidDataUrl(m)) => {
            assert_eq!(m, format!("Expected data:application/json;base64, prefix, got: {}", "€".repeat(16)));
        }
        other => panic!("expected an invalid data URL, got {:?}", other),
    }
}
