use usfm3::{parse, parse_ast, parse_cst, tokenize, ParseOptions};

const SAMPLE: &str = "\\id GEN\n\\c 1\n\\p\n\\v 1 In the beginning";

#[test]
fn tokenize_and_parse_cst_are_first_class_entry_points() {
    let tokens = tokenize(SAMPLE);
    let cst = parse_cst(SAMPLE);

    assert!(!tokens.is_empty());
    assert!(!cst.leaf_ids().is_empty());
}

#[test]
fn eager_ast_can_include_diagnostics() {
    let ast_document = parse_ast(
        "\\id BAD\n\\c 1\n\\v 1 Text",
        ParseOptions { diagnostics: true },
    );

    assert!(ast_document.diagnostics.is_some());
    assert_eq!(
        ast_document.ast.content.len(),
        ast_document.source_map.content.len()
    );
}

#[test]
fn lazy_parse_handle_supports_core_workflow() {
    let parsed = parse(SAMPLE, ParseOptions::default());

    assert!(!parsed.tokens().is_empty());
    assert!(!parsed.cst().leaf_ids().is_empty());
    assert!(!parsed.ast().content.is_empty());
    assert!(parsed.source_map().content.len() == parsed.ast().content.len());
    assert!(parsed.diagnostics().is_none());
    assert!(
        parsed
            .to_usj(usfm3::usj::UsjOptions {
                include_spans: true,
            })
            .is_ok()
    );
}

#[test]
fn lowering_diagnostics_include_the_validation_report() {
    let ast_document = parse_ast(
        "\\id BAD\n\\c 1\n\\c 1\n\\p\n\\v 1 Text \\v 3 More",
        ParseOptions { diagnostics: true },
    );
    let all = ast_document.diagnostics.as_ref().unwrap();
    let report = usfm3::validation::validate(&ast_document.ast, &ast_document.source_map);
    assert!(!report.is_empty());
    for d in report.as_slice() {
        assert!(all
            .iter()
            .any(|x| x.code == d.code && x.span == d.span && x.message == d.message));
    }
    for w in all.windows(2) {
        assert!(w[0].span.start <= w[1].span.start);
    }
}
