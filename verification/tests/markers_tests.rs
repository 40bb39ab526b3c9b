use usfm3::markers::{default_attribute, lookup_marker, required_attributes, MarkerInfo, MarkerKind, MarkerName};

#[test]
fn markers_header_markers() {
    let headers = [
        "id", "usfm", "ide", "h", "h1", "h2", "h3", "toc1", "toc2", "toc3", "toca1", "toca2",
        "toca3", "mt", "mt1", "mt2", "mt3", "mt4", "mte", "mte1", "mte2", "imt", "imt1",
        "imt2", "imt3", "imt4", "imte", "imte1", "imte2", "is", "is1", "is2", "is3", "cl",
        "cp", "cd",
    ];
    for marker in &headers {
        let info = lookup_marker(marker);
        assert_eq!(
            info.kind,
            MarkerKind::Header,
            "expected Header for \\{}",
            marker,
        );
        assert!(
            !info.valid_in_note,
            "\\{} should not be valid_in_note",
            marker,
        );
    }
}

#[test]
fn markers_paragraph_markers() {
    let paragraphs = [
        "p", "m", "po", "pr", "cls", "pmo", "pm", "pmc", "pmr", "pi", "pi1", "pi2", "pi3",
        "mi", "nb", "pc", "ph", "ph1", "ph2", "ph3", "b", "pb", "q", "q1", "q2", "q3", "q4",
        "qr", "qc", "qa", "qm", "qm1", "qm2", "qm3", "qd", "lh", "li", "li1", "li2", "li3",
        "li4", "lf", "lim", "lim1", "lim2", "lim3", "ms", "ms1", "ms2", "ms3", "mr", "s", "s1",
        "s2", "s3", "s4", "sr", "r", "sp", "sd", "sd1", "sd2", "sd3", "sd4", "d", "ip", "ipi",
        "im", "imi", "ipq", "imq", "ipr", "ib", "iq", "iq1", "iq2", "iq3", "iex", "iot", "io",
        "io1", "io2", "io3", "io4", "ili", "ili1", "ili2", "ie",
    ];
    for marker in &paragraphs {
        let info = lookup_marker(marker);
        assert_eq!(
            info.kind,
            MarkerKind::Paragraph,
            "expected Paragraph for \\{}",
            marker,
        );
    }
    // Periph is its own kind
    assert_eq!(lookup_marker("periph").kind, MarkerKind::Periph);
    // Table row is its own kind
    assert_eq!(lookup_marker("tr").kind, MarkerKind::TableRow);
}

#[test]
fn markers_note_markers() {
    for marker in &["f", "fe", "x", "ef", "ex"] {
        let info = lookup_marker(marker);
        assert_eq!(
            info.kind,
            MarkerKind::Note,
            "expected Note for \\{}",
            marker,
        );
        assert!(
            !info.valid_in_note,
            "\\{} itself should not be valid_in_note",
            marker,
        );
    }
}

#[test]
fn markers_note_sub_markers_valid_in_note() {
    let note_subs = [
        "fr", "ft", "fk", "fq", "fqa", "fl", "fw", "fp", "fv", "fdc", "xo", "xop", "xt", "xta",
        "xk", "xq", "xot", "xnt", "xdc",
    ];
    for marker in &note_subs {
        let info = lookup_marker(marker);
        assert_eq!(
            info.kind,
            MarkerKind::Character,
            "expected Character for note sub-marker \\{}",
            marker,
        );
        assert!(info.valid_in_note, "\\{} should be valid_in_note", marker,);
    }
}

#[test]
fn markers_character_markers() {
    let chars = [
        "add", "bk", "dc", "ior", "iqt", "k", "litl", "nd", "ord", "pn", "png", "qs", "qt",
        "sig", "sls", "tl", "wj", "em", "bd", "bdit", "it", "no", "sc", "sup", "rb", "pro",
        "w", "wg", "wh", "wa", "rq", "ca", "va", "vp", "jmp", "fm", "addpn",
    ];
    for marker in &chars {
        let info = lookup_marker(marker);
        assert_eq!(
            info.kind,
            MarkerKind::Character,
            "expected Character for \\{}",
            marker,
        );
        assert!(
            !info.valid_in_note,
            "\\{} should not be valid_in_note",
            marker,
        );
    }
}

#[test]
fn markers_table_cell_markers() {
    let cells = [
        "th", "th1", "th2", "th3", "tc", "tc1", "tc2", "tc3", "thr", "thr1", "thr2", "thr3",
        "tcr", "tcr1", "tcr2", "tcr3", "thc", "thc1", "thc2", "thc3", "tcc", "tcc1", "tcc2",
        "tcc3",
    ];
    for marker in &cells {
        let info = lookup_marker(marker);
        assert_eq!(
            info.kind,
            MarkerKind::TableCell,
            "expected TableCell for \\{}",
            marker,
        );
    }
}

#[test]
fn markers_dynamic_numbered_variants() {
    // Paragraph variants
    assert_eq!(lookup_marker("s5").kind, MarkerKind::Paragraph);
    assert_eq!(lookup_marker("ms4").kind, MarkerKind::Paragraph);
    assert_eq!(lookup_marker("ms7").kind, MarkerKind::Paragraph);
    assert_eq!(lookup_marker("q5").kind, MarkerKind::Paragraph);
    assert_eq!(lookup_marker("li5").kind, MarkerKind::Paragraph);
    assert_eq!(lookup_marker("io5").kind, MarkerKind::Paragraph);

    // TableCell variants
    assert_eq!(lookup_marker("th4").kind, MarkerKind::TableCell);
    assert_eq!(lookup_marker("tc4").kind, MarkerKind::TableCell);
    assert_eq!(lookup_marker("tc5").kind, MarkerKind::TableCell);
    assert_eq!(lookup_marker("thr4").kind, MarkerKind::TableCell);
    assert_eq!(lookup_marker("tcr4").kind, MarkerKind::TableCell);
    assert_eq!(lookup_marker("thc4").kind, MarkerKind::TableCell);
    assert_eq!(lookup_marker("tcc4").kind, MarkerKind::TableCell);

    // Liturgical note
    assert_eq!(lookup_marker("lit").kind, MarkerKind::Paragraph);

    // Genuinely unknown should stay unknown
    assert_eq!(lookup_marker("notamarker").kind, MarkerKind::Unknown);
    assert_eq!(lookup_marker("xyz99").kind, MarkerKind::Unknown);
}

#[test]
fn markers_chapter_marker() {
    let info = lookup_marker("c");
    assert_eq!(info.kind, MarkerKind::Chapter);
    assert!(!info.valid_in_note);
}

#[test]
fn markers_verse_marker() {
    let info = lookup_marker("v");
    assert_eq!(info.kind, MarkerKind::Verse);
    assert!(!info.valid_in_note);
}

#[test]
fn markers_figure_marker() {
    let info = lookup_marker("fig");
    assert_eq!(info.kind, MarkerKind::Figure);
    assert!(!info.valid_in_note);
}

#[test]
fn markers_sidebar_markers() {
    let info = lookup_marker("esb");
    assert_eq!(info.kind, MarkerKind::SidebarStart);

    let info = lookup_marker("esbe");
    assert_eq!(info.kind, MarkerKind::SidebarEnd);
}

#[test]
fn markers_meta_markers() {
    for marker in &["rem", "sts", "restore", "cat"] {
        let info = lookup_marker(marker);
        assert_eq!(
            info.kind,
            MarkerKind::Meta,
            "expected Meta for \\{}",
            marker,
        );
    }
}

#[test]
fn markers_milestone_start_markers() {
    for marker in &["qt1-s", "qt2-s", "ts-s", "foo-s"] {
        let info = lookup_marker(marker);
        assert_eq!(
            info.kind,
            MarkerKind::MilestoneStart,
            "expected MilestoneStart for \\{}",
            marker,
        );
    }
}

#[test]
fn markers_milestone_end_markers() {
    for marker in &["qt1-e", "qt2-e", "ts-e", "foo-e"] {
        let info = lookup_marker(marker);
        assert_eq!(
            info.kind,
            MarkerKind::MilestoneEnd,
            "expected MilestoneEnd for \\{}",
            marker,
        );
    }
}

#[test]
fn markers_z_namespace_is_unknown() {
    for marker in &["zanything", "zcustom", "z", "zmymarker"] {
        let info = lookup_marker(marker);
        assert_eq!(
            info.kind,
            MarkerKind::Unknown,
            "expected Unknown for \\{}",
            marker,
        );
    }
}

#[test]
fn markers_unknown_markers() {
    for marker in &["notamarker", "xyz", "hello", "foobar"] {
        let info = lookup_marker(marker);
        assert_eq!(
            info.kind,
            MarkerKind::Unknown,
            "expected Unknown for \\{}",
            marker,
        );
    }
}

#[test]
fn marker_name_from_string_round_trips() {
    for name in ["nd", "q5", "zfoo"] {
        assert_eq!(MarkerName::from(name.to_string()).as_str(), name);
        assert_eq!(MarkerName::from(name).as_str(), name);
        assert_eq!(MarkerName::parse(name).as_str(), name);
    }
}
