use citegraph::graph::CitationGraph;
use citegraph::node::PaperNode;
use citegraph::paper_id::{CiteError, PaperID};
use citegraph::parser::parse_page_into_paper_nodes;

fn block(id: &str, title: &str, year: u32, cites: Option<&str>) -> String {
    let cites_link = match cites {
        Some(h) => format!("<a href=\"{}\">Cited by 3</a>", h),
        None => String::new(),
    };
    format!(
        "<div class=\"gs_r\"><div class=\"gs_ri\"><h3 class=\"gs_rt\"><a id=\"{}\" href=\"https://example.org/p\">{}</a></h3><div class=\"gs_a\">A Author - Journal, {} - example.org</div><div class=\"gs_fl\">{}</div></div></div>",
        id, title, year, cites_link
    )
}

fn seeded(cites: Option<&str>) -> CitationGraph {
    let (mut g, recs) = CitationGraph::init_graph_from_page(&block("AAAAAAAAAAAA", "Foo", 2019, cites));
    assert_eq!(recs.len(), 1);
    let seed = PaperNode::new(recs[0].id(), recs[0].get_title(), recs[0].year(), recs[0].cited_by_url());
    assert!(g.add_paper_node(seed).is_ok());
    g
}

fn id(s: &str) -> PaperID {
    PaperID::new_from_str(s).unwrap()
}

fn citers(g: &CitationGraph, i: usize) -> Vec<String> {
    g.node_at(i).cited_by().iter().map(|x| x.as_text()).collect()
}

fn one_hop() -> CitationGraph {
    let mut g = seeded(Some("/scholar?cites=1"));
    let h1 = format!(
        "{}{}",
        block("BBBBBBBBBBBB", "Bee", 2020, Some("/scholar?cites=2")),
        block("CCCCCCCCCCCC", "Sea", 2021, None)
    );
    assert_eq!(g.expand_node(0, &h1), Ok((2, 2)));
    g
}

#[test]
fn init_graph_is_empty() {
    let (g, recs) = CitationGraph::init_graph_from_page(&block("AAAAAAAAAAAA", "Foo", 2019, None));
    assert_eq!(recs.len(), 1);
    assert_eq!(g.len(), 0);
    assert_eq!(g.level_populations(), Vec::<usize>::new());
}

#[test]
fn new_graph_is_empty() {
    let g = CitationGraph::new();
    assert_eq!(g.len(), 0);
    assert_eq!(g.level_populations(), Vec::<usize>::new());
    assert_eq!(g.snapshot(), "Citation Graph {\n}");
}

#[test]
fn seed_only() {
    let mut g = seeded(None);
    assert_eq!(g.len(), 1);
    assert_eq!(g.node_at(0).id().as_text(), "AAAAAAAAAAAA");
    assert_eq!(g.node_at(0).get_title(), "Foo");
    assert_eq!(g.node_at(0).year(), 2019);
    assert_eq!(g.level_populations(), vec![1]);
    assert_eq!(g.level_of(0), 0);
    let h = block("BBBBBBBBBBBB", "Bee", 2020, None);
    assert_eq!(g.expand_node(0, &h), Err(CiteError::ParentNotExpandable));
    assert_eq!(g.len(), 1);
}

#[test]
fn seeding_twice_fails() {
    let mut g = seeded(None);
    let other = PaperNode::new(id("BBBBBBBBBBBB"), "Bee".to_string(), 2020, None);
    assert_eq!(g.add_paper_node(other), Err(CiteError::AlreadySeeded));
    assert_eq!(g.len(), 1);
}

#[test]
fn seed_drops_prior_citers() {
    let recs = parse_page_into_paper_nodes(&block("AAAAAAAAAAAA", "Foo", 2019, None));
    let mut g = CitationGraph::new();
    let mut it = recs.into_iter();
    assert!(g.add_paper_node(it.next().unwrap()).is_ok());
    assert_eq!(g.node_at(0).cited_by().len(), 0);
}

#[test]
fn expand_unknown_parent_fails() {
    let mut g = seeded(Some("/scholar?cites=1"));
    assert_eq!(g.expand_node(5, ""), Err(CiteError::NoSuchParent));
    let mut e = CitationGraph::new();
    assert_eq!(e.expand_node(0, ""), Err(CiteError::NoSuchParent));
}

#[test]
fn one_hop_expansion() {
    let g = one_hop();
    assert_eq!(g.len(), 3);
    assert_eq!(g.level_populations(), vec![1, 2]);
    assert_eq!(citers(&g, 0), vec!["BBBBBBBBBBBB", "CCCCCCCCCCCC"]);
    assert_eq!(g.level_of(1), 1);
    assert_eq!(g.level_of(2), 1);
}

#[test]
fn duplicate_across_pages() {
    let mut g = one_hop();
    let h2 = format!(
        "{}{}",
        block("CCCCCCCCCCCC", "Sea again", 1999, None),
        block("DDDDDDDDDDDD", "Dee", 2022, None)
    );
    assert_eq!(g.expand_node(1, &h2), Ok((1, 2)));
    assert_eq!(g.len(), 4);
    assert_eq!(g.lookup(&id("CCCCCCCCCCCC")), Some(2));
    assert_eq!(g.level_of(2), 1);
    assert_eq!(g.node_at(2).get_title(), "Sea");
    assert_eq!(g.node_at(2).year(), 2021);
    assert_eq!(g.lookup(&id("DDDDDDDDDDDD")), Some(3));
    assert_eq!(g.level_of(3), 2);
    assert_eq!(g.level_populations(), vec![1, 2, 1]);
    assert_eq!(citers(&g, 1), vec!["CCCCCCCCCCCC", "DDDDDDDDDDDD"]);
}

#[test]
fn malformed_id_inserts_only_valid() {
    let mut g = seeded(Some("/scholar?cites=1"));
    let h = format!(
        "{}{}",
        block("SHORT", "Bad", 2001, None),
        block("BBBBBBBBBBBB", "Good", 2002, None)
    );
    assert_eq!(g.expand_node(0, &h), Ok((1, 1)));
    assert_eq!(g.len(), 2);
    assert_eq!(citers(&g, 0), vec!["BBBBBBBBBBBB"]);
}

#[test]
fn malformed_only_leaves_graph_unchanged() {
    let mut g = seeded(Some("/scholar?cites=1"));
    let before = g.snapshot();
    assert_eq!(g.expand_node(0, &block("TOOLONGIDENTIFIER", "Bad", 2001, None)), Ok((0, 0)));
    assert_eq!(g.snapshot(), before);
}

#[test]
fn self_citation_is_ignored() {
    let mut g = seeded(Some("/scholar?cites=1"));
    let h = format!(
        "{}{}",
        block("AAAAAAAAAAAA", "Foo", 2019, None),
        block("BBBBBBBBBBBB", "Bee", 2020, None)
    );
    assert_eq!(g.expand_node(0, &h), Ok((1, 1)));
    assert_eq!(g.len(), 2);
    assert_eq!(citers(&g, 0), vec!["BBBBBBBBBBBB"]);
}

#[test]
fn duplicates_within_page_count_once() {
    let mut g = seeded(Some("/scholar?cites=1"));
    let h = format!(
        "{}{}",
        block("BBBBBBBBBBBB", "First", 2020, None),
        block("BBBBBBBBBBBB", "Second", 2021, None)
    );
    assert_eq!(g.expand_node(0, &h), Ok((1, 1)));
    assert_eq!(g.node_at(1).get_title(), "First");
    assert_eq!(citers(&g, 0), vec!["BBBBBBBBBBBB"]);
}

#[test]
fn empty_citer_page_adds_nothing() {
    let mut g = seeded(Some("/scholar?cites=1"));
    assert_eq!(g.expand_node(0, ""), Ok((0, 0)));
    assert_eq!(g.len(), 1);
}

#[test]
fn expanding_twice_changes_nothing_more() {
    let mut g = seeded(Some("/scholar?cites=1"));
    let h = format!(
        "{}{}",
        block("BBBBBBBBBBBB", "Bee", 2020, None),
        block("CCCCCCCCCCCC", "Sea", 2021, None)
    );
    assert_eq!(g.expand_node(0, &h), Ok((2, 2)));
    let once = g.snapshot();
    assert_eq!(g.expand_node(0, &h), Ok((0, 0)));
    assert_eq!(g.snapshot(), once);
    assert_eq!(g.level_populations(), vec![1, 2]);
}

#[test]
fn invariants_hold_after_growth() {
    let mut g = one_hop();
    let h2 = format!(
        "{}{}",
        block("CCCCCCCCCCCC", "Sea", 2021, None),
        block("DDDDDDDDDDDD", "Dee", 2022, Some("/scholar?cites=4"))
    );
    g.expand_node(1, &h2).unwrap();
    let h3 = format!("{}{}", block("AAAAAAAAAAAA", "Foo", 2019, None), block("EEEEEEEEEEEE", "E", 2023, None));
    g.expand_node(3, &h3).unwrap();
    // identifiers unique and indexed
    for i in 0..g.len() {
        assert_eq!(g.lookup(&g.node_at(i).id()), Some(i));
        for j in 0..g.len() {
            if i != j {
                assert!(!g.node_at(i).id().same_as(&g.node_at(j).id()));
            }
        }
        // every citer is a node, one level below where it was first found
        for c in g.node_at(i).cited_by() {
            assert!(g.lookup(&c).is_some());
        }
    }
    let pops = g.level_populations();
    assert_eq!(pops.iter().sum::<usize>(), g.len());
    assert_eq!(pops, vec![1, 2, 1, 1]);
    assert_eq!(g.level_of(0), 0);
    assert_eq!(g.level_of(4), g.level_of(3) + 1);
    assert_eq!(citers(&g, 3), vec!["AAAAAAAAAAAA", "EEEEEEEEEEEE"]);
}

#[test]
fn merge_records_directly() {
    let mut g = seeded(Some("/scholar?cites=1"));
    let recs = vec![
        PaperNode::new(id("BBBBBBBBBBBB"), "Bee".to_string(), 2020, None),
        PaperNode::new(id("AAAAAAAAAAAA"), "Self".to_string(), 2020, None),
        PaperNode::new(id("BBBBBBBBBBBB"), "Bee".to_string(), 2020, None),
    ];
    assert_eq!(g.merge_records(0, &recs), (1, 1));
    assert_eq!(g.len(), 2);
}

#[test]
fn lookup_missing_is_none() {
    let g = one_hop();
    assert_eq!(g.lookup(&id("ZZZZZZZZZZZZ")), None);
    assert_eq!(g.lookup(&id("AAAAAAAAAAAA")), Some(0));
}

#[test]
fn snapshot_text() {
    let mut g = one_hop();
    let h2 = block("AAAAAAAAAAAA", "Foo", 2019, None);
    // node 1 now also lists node 2; the seed's own identifier is ignored
    assert_eq!(g.expand_node(1, &block("CCCCCCCCCCCC", "Sea", 2021, None)), Ok((0, 1)));
    assert_eq!(g.expand_node(0, &h2), Ok((0, 0)));
    let expected = "Citation Graph {\n\
    \x20   0 -----\n\
    \x20     Title: Foo\n\
    \x20     ID: AAAAAAAAAAAA\n\
    \x20     Cited by: 1, 2\n\
    \x20     Can be expanded: true\n\
    \x20   1 -----\n\
    \x20     Title: Bee\n\
    \x20     ID: BBBBBBBBBBBB\n\
    \x20     Cited by: 2\n\
    \x20     Can be expanded: true\n\
    \x20   2 -----\n\
    \x20     Title: Sea\n\
    \x20     ID: CCCCCCCCCCCC\n\
    \x20     Can be expanded: false\n\
    }";
    assert_eq!(g.snapshot(), expected);
    assert_eq!(g.snapshot(), g.snapshot());
}

#[test]
fn snapshot_lists_citers_ascending() {
    let mut g = seeded(Some("/scholar?cites=1"));
    let mut pages = String::new();
    for k in ["KKKKKKKKKKK1", "KKKKKKKKKKK2", "KKKKKKKKKK10", "KKKKKKKKKK11"] {
        pages.push_str(&block(k, "K", 2000, None));
    }
    assert_eq!(g.expand_node(0, &pages), Ok((4, 4)));
    assert!(g.snapshot().contains("      Cited by: 1, 2, 3, 4\n"));
}

#[test]
fn add_page_leaves_graph_alone() {
    let g = seeded(None);
    let recs = g.add_page_to_graph(&block("BBBBBBBBBBBB", "Bee", 2020, None));
    assert_eq!(recs.len(), 1);
    assert_eq!(g.len(), 1);
}
