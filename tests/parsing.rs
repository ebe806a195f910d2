use citegraph::parser::{
    cited_by_link, container_into_node, dropped_block_count, div_frag_into_node, find_year_in_string, parse_page_into_paper_nodes,
    remove_html_tags, year_from_tokens,
};
use citegraph::paper_id::{CiteError, PaperID};
use citegraph::text::{construct_gs_search_url, has_prefix, replace_char};

fn block(id: Option<&str>, title: &str, info: Option<&str>, cites: Option<&str>) -> String {
    let id_attr = match id {
        Some(i) => format!(" id=\"{}\"", i),
        None => String::new(),
    };
    let info_div = match info {
        Some(t) => format!("<div class=\"gs_a\">{}</div>", t),
        None => String::new(),
    };
    let cites_link = match cites {
        Some(h) => format!("<a href=\"{}\">Cited by 3</a>", h),
        None => String::new(),
    };
    format!(
        "<div class=\"gs_r gs_or\"><div class=\"gs_ri\"><h3 class=\"gs_rt\"><a{} href=\"https://example.org/p\">{}</a></h3>{}<div class=\"gs_fl\"><a href=\"/scholar?q=related\">Related</a>{}</div></div></div>",
        id_attr, title, info_div, cites_link
    )
}

#[test]
fn empty_page_has_no_records() {
    assert_eq!(parse_page_into_paper_nodes("").len(), 0);
}

#[test]
fn page_without_results_has_no_records() {
    assert_eq!(parse_page_into_paper_nodes("<html><body><p>No results</p></body></html>").len(), 0);
}

#[test]
fn single_record_fields() {
    let html = block(Some("AAAAAAAAAAAA"), "Foo", Some("J Doe - Nature, 2019 - example.org"), Some("/scholar?cites=111"));
    let recs = parse_page_into_paper_nodes(&html);
    assert_eq!(recs.len(), 1);
    assert_eq!(recs[0].id().as_text(), "AAAAAAAAAAAA");
    assert_eq!(recs[0].get_title(), "Foo");
    assert_eq!(recs[0].year(), 2019);
    assert_eq!(recs[0].cited_by_url(), Some("https://scholar.google.com//scholar?cites=111".to_string()));
    assert!(recs[0].is_expandable());
    assert_eq!(recs[0].cited_by().len(), 0);
}

#[test]
fn missing_publication_info_gives_year_zero() {
    let html = block(Some("AAAAAAAAAAAA"), "Foo", None, Some("/scholar?cites=111"));
    let recs = parse_page_into_paper_nodes(&html);
    assert_eq!(recs.len(), 1);
    assert_eq!(recs[0].year(), 0);
    assert_eq!(recs[0].get_title(), "Foo");
    assert_eq!(recs[0].id().as_text(), "AAAAAAAAAAAA");
    assert!(recs[0].is_expandable());
}

#[test]
fn missing_cited_by_link_is_absent() {
    let html = block(Some("AAAAAAAAAAAA"), "Foo", Some("2019"), None);
    let recs = parse_page_into_paper_nodes(&html);
    assert_eq!(recs.len(), 1);
    assert_eq!(recs[0].cited_by_url(), None);
    assert!(!recs[0].is_expandable());
}

#[test]
fn malformed_ids_are_dropped() {
    let html = format!(
        "{}{}{}",
        block(Some("SHORT"), "Bad", Some("2001"), None),
        block(Some("BBBBBBBBBBBB"), "Good", Some("2002"), None),
        block(None, "NoId", Some("2003"), None)
    );
    let recs = parse_page_into_paper_nodes(&html);
    assert_eq!(recs.len(), 1);
    assert_eq!(recs[0].id().as_text(), "BBBBBBBBBBBB");
    assert_eq!(recs[0].get_title(), "Good");
}

#[test]
fn records_follow_document_order() {
    let html = format!(
        "{}{}",
        block(Some("CCCCCCCCCCCC"), "Second", None, None),
        block(Some("BBBBBBBBBBBB"), "First", None, None)
    );
    let recs = parse_page_into_paper_nodes(&html);
    assert_eq!(recs.len(), 2);
    assert_eq!(recs[0].id().as_text(), "CCCCCCCCCCCC");
    assert_eq!(recs[1].id().as_text(), "BBBBBBBBBBBB");
}

#[test]
fn parsing_is_deterministic() {
    let html = format!(
        "{}{}",
        block(Some("CCCCCCCCCCCC"), "One", Some("1999"), Some("/scholar?cites=5")),
        block(Some("BBBBBBBBBBBB"), "Two", None, None)
    );
    let a = parse_page_into_paper_nodes(&html);
    let b = parse_page_into_paper_nodes(&html);
    assert_eq!(a.len(), b.len());
    for i in 0..a.len() {
        assert_eq!(a[i].id().as_text(), b[i].id().as_text());
        assert_eq!(a[i].get_title(), b[i].get_title());
        assert_eq!(a[i].year(), b[i].year());
        assert_eq!(a[i].cited_by_url(), b[i].cited_by_url());
    }
}

#[test]
fn title_markup_is_stripped() {
    let html = block(Some("AAAAAAAAAAAA"), "<b>Deep</b> learning", None, None);
    let recs = parse_page_into_paper_nodes(&html);
    assert_eq!(recs[0].get_title(), "Deep learning");
}

#[test]
fn year_extraction_skips_negatives() {
    let html = block(Some("AAAAAAAAAAAA"), "Foo", Some("J Doe, <i>Nature</i>, -42, 1998 — Elsevier"), None);
    let recs = parse_page_into_paper_nodes(&html);
    assert_eq!(recs[0].year(), 1998);
    assert_eq!(find_year_in_string(&remove_html_tags("J Doe, <i>Nature</i>, -42, 1998 — Elsevier")), Some(1998));
}

#[test]
fn year_needs_more_than_one_thousand() {
    assert_eq!(find_year_in_string("vol 12, pp 999-1000"), None);
    assert_eq!(find_year_in_string("-2019 then 1001"), Some(1001));
    assert_eq!(find_year_in_string("99999999999 and 2005"), Some(2005));
    assert_eq!(find_year_in_string(""), None);
}

#[test]
fn year_from_token_list() {
    let toks = vec!["-42".to_string(), "7".to_string(), "1998".to_string(), "2001".to_string()];
    assert_eq!(year_from_tokens(&toks), Some(1998));
    assert_eq!(year_from_tokens(&vec!["+1500".to_string()]), Some(1500));
    assert_eq!(year_from_tokens(&vec![]), None);
}

#[test]
fn tags_are_removed() {
    assert_eq!(remove_html_tags("<b>a</b>b<i>c</i>"), "abc");
    assert_eq!(remove_html_tags("a < b"), "a < b");
    assert_eq!(remove_html_tags(""), "");
}

#[test]
fn cited_by_link_picks_first_listing() {
    let hrefs = vec![
        None,
        Some("/scholar?q=related".to_string()),
        Some("/scholar?cites=42".to_string()),
        Some("/scholar?cites=43".to_string()),
    ];
    assert_eq!(cited_by_link(&hrefs), Some("https://scholar.google.com//scholar?cites=42".to_string()));
    assert_eq!(cited_by_link(&vec![Some("/other".to_string())]), None);
}

#[test]
fn fragment_into_node() {
    let html = block(Some("DDDDDDDDDDDD"), "Bar", Some("2010"), None);
    let n = div_frag_into_node(&html).unwrap();
    assert_eq!(n.id().as_text(), "DDDDDDDDDDDD");
    assert_eq!(n.year(), 2010);
    assert!(div_frag_into_node(&block(Some("SHORT"), "Bar", None, None)).is_none());
}

#[test]
fn search_url_of_empty_term() {
    assert_eq!(
        construct_gs_search_url(""),
        "https://scholar.google.com/scholar?hl=en&as_sdt=0%2C43&q=&btnG="
    );
}

#[test]
fn search_url_replaces_spaces_only() {
    assert_eq!(
        construct_gs_search_url("graph neural nets&x"),
        "https://scholar.google.com/scholar?hl=en&as_sdt=0%2C43&q=graph+neural+nets&x&btnG="
    );
}

#[test]
fn paper_id_needs_twelve_bytes() {
    assert!(matches!(PaperID::new_from_str("SHORT"), Err(CiteError::MalformedId)));
    assert!(matches!(PaperID::new_from_str("AAAAAAAAAAAAA"), Err(CiteError::MalformedId)));
    let id = PaperID::new_from_str("AbCdEfGhIjKl").unwrap();
    assert_eq!(id.as_text(), "AbCdEfGhIjKl");
    assert_eq!(id.bytes(), b"AbCdEfGhIjKl".to_vec());
    assert!(id.same_as(&PaperID::new_from_str("AbCdEfGhIjKl").unwrap()));
    assert!(!id.same_as(&PaperID::new_from_str("AbCdEfGhIjKm").unwrap()));
    assert_ne!(id.key(), PaperID::new_from_str("AbCdEfGhIjKm").unwrap().key());
}

#[test]
fn fields_come_from_the_first_container_only() {
    let two = format!(
        "<div class=\"gs_ri\"><h3 class=\"gs_rt\"><a id=\"AAAAAAAAAAAA\">First</a></h3></div>{}",
        block(Some("BBBBBBBBBBBB"), "Second", Some("2005"), Some("/scholar?cites=9"))
    );
    let n = div_frag_into_node(&two).unwrap();
    assert_eq!(n.id().as_text(), "AAAAAAAAAAAA");
    assert_eq!(n.get_title(), "First");
    assert_eq!(n.year(), 0);
    assert_eq!(n.cited_by_url(), None);
    assert!(div_frag_into_node("<p>no container</p>").is_none());
}

#[test]
fn container_into_node_reads_fields() {
    let html = block(Some("CCCCCCCCCCCC"), "Cee", Some("Z, 1987"), Some("/scholar?cites=7"));
    let n = container_into_node(&html).unwrap();
    assert_eq!(n.year(), 1987);
    assert_eq!(n.cited_by_url(), Some("https://scholar.google.com//scholar?cites=7".to_string()));
}

#[test]
fn dropped_blocks_are_counted() {
    let html = format!(
        "{}{}{}",
        block(Some("SHORT"), "Bad", None, None),
        block(Some("BBBBBBBBBBBB"), "Good", None, None),
        block(None, "NoId", None, None)
    );
    assert_eq!(dropped_block_count(&html), 2);
    assert_eq!(dropped_block_count(""), 0);
}

#[test]
fn prefix_and_replace_helpers() {
    assert!(has_prefix("/scholar?cites=1", "/scholar?cites="));
    assert!(!has_prefix("/scholar?q=1", "/scholar?cites="));
    assert!(!has_prefix("/sch", "/scholar"));
    assert!(has_prefix("é-x", "é"));
    assert!(has_prefix("abc", ""));
    assert_eq!(replace_char("a b  c", ' ', "+"), "a+b++c");
    assert_eq!(replace_char("é é", ' ', "%20"), "é%20é");
    assert_eq!(replace_char("", ' ', "+"), "");
}

#[test]
fn unclosed_tag_is_kept() {
    assert_eq!(remove_html_tags("x<a>y<b"), "xy<b");
    assert_eq!(remove_html_tags("<a<b>c"), "c");
    assert_eq!(remove_html_tags("a>b"), "a>b");
}
