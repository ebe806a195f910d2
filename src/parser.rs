use vstd::prelude::*;
use vstd::utf8::encode_utf8;
use crate::node::{opt_text, NodeView, PaperNode};
use crate::paper_id::PaperID;
use crate::text::{has_prefix, join3, parse_i32, parse_i32_spec, starts_with_spec};

verus! {

/// What scraper's `Element::html` gives, in tree order, for each element
/// of the fragment `doc` that `selector` matches.
pub uninterp spec fn outer_html_matches(doc: Seq<char>, selector: Seq<char>) -> Seq<Seq<char>>;

/// What scraper's `ElementRef::inner_html` gives, in tree order, for each
/// element of the fragment `doc` that `selector` matches.
pub uninterp spec fn inner_html_matches(doc: Seq<char>, selector: Seq<char>) -> Seq<Seq<char>>;

/// The value of attribute `name`, in tree order, of each element of the
/// fragment `doc` that `selector` matches.
pub uninterp spec fn attr_matches(doc: Seq<char>, selector: Seq<char>, name: Seq<char>) -> Seq<Option<Seq<char>>>;

/// The texts of the successive non-overlapping matches of `pattern` in `text`.
pub uninterp spec fn regex_found(pattern: Seq<char>, text: Seq<char>) -> Seq<Seq<char>>;

pub open spec fn texts(v: Seq<String>) -> Seq<Seq<char>> {
    v.map_values(|s: String| s@)
}

pub open spec fn opt_texts(v: Seq<Option<String>>) -> Seq<Option<Seq<char>>> {
    v.map_values(|o: Option<String>| opt_text(o))
}

/// Relies on scraper's `Html::parse_fragment`, `Selector::parse`, `Html::select`
/// and `ElementRef::html`: the serialized matches of a selector, in tree
/// order (none where the selector does not parse). An empty fragment holds
/// only the root `html` element, so no `div` matches in it.
#[verifier::external_body]
fn select_outer(doc: &str, selector: &str) -> (r: Vec<String>)
    ensures
        texts(r@) == outer_html_matches(doc@, selector@),
        doc@.len() == 0 && selector@ == result_selector() ==> r@.len() == 0,
{
    let html = scraper::Html::parse_fragment(doc);
    match scraper::Selector::parse(selector) {
        Ok(sel) => html.select(&sel).map(|e| e.html()).collect(),
        Err(_) => Vec::new(),
    }
}

/// Relies on scraper's `Html::parse_fragment`, `Selector::parse`, `Html::select`
/// and `ElementRef::inner_html`: the serialized contents of the matches of a
/// selector, in tree order (none where the selector does not parse).
#[verifier::external_body]
fn select_inner(doc: &str, selector: &str) -> (r: Vec<String>)
    ensures
        texts(r@) == inner_html_matches(doc@, selector@),
{
    let html = scraper::Html::parse_fragment(doc);
    match scraper::Selector::parse(selector) {
        Ok(sel) => html.select(&sel).map(|e| e.inner_html()).collect(),
        Err(_) => Vec::new(),
    }
}

/// Relies on scraper's `Html::parse_fragment`, `Selector::parse`, `Html::select`
/// and `Element::attr`: one attribute of each match of a selector, in tree
/// order (no matches where the selector does not parse).
#[verifier::external_body]
fn select_attr(doc: &str, selector: &str, name: &str) -> (r: Vec<Option<String>>)
    ensures
        opt_texts(r@) == attr_matches(doc@, selector@, name@),
{
    let html = scraper::Html::parse_fragment(doc);
    match scraper::Selector::parse(selector) {
        Ok(sel) => html.select(&sel).map(|e| e.value().attr(name).map(|v| v.to_string())).collect(),
        Err(_) => Vec::new(),
    }
}

/// Relies on regex's `Regex::new` and `Regex::find_iter`: the texts of the
/// successive matches (none where the pattern does not compile); each is a
/// substring of the text (`Match::as_str`).
#[verifier::external_body]
fn regex_find_all(pattern: &str, text: &str) -> (r: Vec<String>)
    ensures
        texts(r@) == regex_found(pattern@, text@),
        forall|i: int| 0 <= i < r@.len() ==> (#[trigger] r@[i])@.len() <= text@.len(),
{
    match regex::Regex::new(pattern) {
        Ok(re) => re.find_iter(text).map(|m| m.as_str().to_string()).collect(),
        Err(_) => Vec::new(),
    }
}

/// Relies on regex's `Regex::new` and `Regex::replace_all` with an empty
/// replacement (the text unchanged where the pattern does not compile): the
/// result is made of the pieces of the text between the successive leftmost
/// matches. For `<[^>]*>` a match runs from a `<` that a later `>` closes
/// through the first such `>`.
#[verifier::external_body]
fn regex_erase(pattern: &str, text: &str) -> (r: String)
    ensures
        r@.len() <= text@.len(),
        pattern@ == tag_pattern() ==> r@ == tags_removed(text@),
{
    match regex::Regex::new(pattern) {
        Ok(re) => re.replace_all(text, "").into_owned(),
        Err(_) => text.to_string(),
    }
}

pub open spec fn result_selector() -> Seq<char> {
    "div.gs_ri"@
}

pub open spec fn info_selector() -> Seq<char> {
    "div.gs_ri div.gs_a"@
}

pub open spec fn title_selector() -> Seq<char> {
    "div.gs_ri h3.gs_rt>a"@
}

pub open spec fn action_selector() -> Seq<char> {
    "div.gs_ri div.gs_fl>a"@
}

pub open spec fn tag_pattern() -> Seq<char> {
    "<[^>]*>"@
}

pub open spec fn integer_pattern() -> Seq<char> {
    "-?\\d+"@
}

pub open spec fn cites_prefix() -> Seq<char> {
    "/scholar?cites="@
}

pub open spec fn engine_origin() -> Seq<char> {
    "https://scholar.google.com/"@
}

/// Scans `s` for tags: `done` is the text kept so far; while `open`, `tail`
/// holds a `<` and what followed it, dropped if a `>` closes it and kept if
/// the text ends first.
pub open spec fn tags_removed_from(s: Seq<char>, done: Seq<char>, tail: Seq<char>, open: bool) -> Seq<char>
    decreases s.len(),
{
    if s.len() == 0 {
        done + tail
    } else if open && s[0] == '>' {
        tags_removed_from(s.drop_first(), done, Seq::empty(), false)
    } else if open {
        tags_removed_from(s.drop_first(), done, tail.push(s[0]), true)
    } else if s[0] == '<' {
        tags_removed_from(s.drop_first(), done, seq!['<'], true)
    } else {
        tags_removed_from(s.drop_first(), done.push(s[0]), Seq::empty(), false)
    }
}

/// `s` with every tag removed: each run from a `<` through the first `>`
/// after it; a `<` that no `>` follows is kept with the rest of the text.
pub open spec fn tags_removed(s: Seq<char>) -> Seq<char> {
    tags_removed_from(s, Seq::empty(), Seq::empty(), false)
}

/// No `<` in `t` has a `>` after it.
pub open spec fn no_tag(t: Seq<char>) -> bool {
    forall|i: int, j: int| 0 <= i < j < t.len() && t[i] == '<' ==> t[j] != '>'
}

pub proof fn lemma_tags_removed_from(s: Seq<char>, done: Seq<char>, tail: Seq<char>, open: bool)
    requires
        forall|i: int| 0 <= i < done.len() ==> done[i] != '<',
        forall|i: int| 0 <= i < tail.len() ==> tail[i] != '>',
        !open ==> tail.len() == 0,
    ensures
        no_tag(tags_removed_from(s, done, tail, open)),
    decreases s.len(),
{
    if s.len() == 0 {
        let t = done + tail;
        assert forall|i: int, j: int| 0 <= i < j < t.len() && t[i] == '<' implies t[j] != '>' by {
            if i < done.len() {
                assert(done[i] == t[i]);
            } else {
                assert(tail[j - done.len()] == t[j]);
            }
        }
    } else if open && s[0] == '>' {
        lemma_tags_removed_from(s.drop_first(), done, Seq::empty(), false);
    } else if open {
        assert forall|i: int| 0 <= i < tail.push(s[0]).len() implies tail.push(s[0])[i] != '>' by {
            if i < tail.len() {
                assert(tail.push(s[0])[i] == tail[i]);
            }
        }
        lemma_tags_removed_from(s.drop_first(), done, tail.push(s[0]), true);
    } else if s[0] == '<' {
        lemma_tags_removed_from(s.drop_first(), done, seq!['<'], true);
    } else {
        assert forall|i: int| 0 <= i < done.push(s[0]).len() implies done.push(s[0])[i] != '<' by {
            if i < done.len() {
                assert(done.push(s[0])[i] == done[i]);
            }
        }
        lemma_tags_removed_from(s.drop_first(), done.push(s[0]), Seq::empty(), false);
    }
}

/// No tag survives stripping: in the result, no `<` is followed by a `>`.
pub proof fn lemma_no_tag_survives(s: Seq<char>)
    ensures
        no_tag(tags_removed(s)),
{
    lemma_tags_removed_from(s, Seq::empty(), Seq::empty(), false);
}

/// Text with every tag (`<` up to the next `>`) removed.
pub open spec fn strip_tags_spec(s: Seq<char>) -> Seq<char> {
    tags_removed(s)
}

/// The first integer literal above 1000 among `tokens`.
pub open spec fn year_in_tokens(tokens: Seq<Seq<char>>) -> Option<u32>
    decreases tokens.len(),
{
    if tokens.len() == 0 {
        None
    } else {
        match parse_i32_spec(tokens[0]) {
            Some(n) if n > 1000 => Some(n as u32),
            _ => year_in_tokens(tokens.drop_first()),
        }
    }
}

/// The first integer literal above 1000 in `text`.
pub open spec fn year_in_text(text: Seq<char>) -> Option<u32> {
    year_in_tokens(regex_found(integer_pattern(), text))
}

pub open spec fn first_or_empty(s: Seq<Seq<char>>) -> Seq<char> {
    if s.len() > 0 {
        s[0]
    } else {
        Seq::empty()
    }
}

/// The first citer-listing link among the `href` values, made absolute.
pub open spec fn cites_link(hrefs: Seq<Option<Seq<char>>>) -> Option<Seq<char>>
    decreases hrefs.len(),
{
    if hrefs.len() == 0 {
        None
    } else {
        match hrefs[0] {
            Some(h) if starts_with_spec(h, cites_prefix()) => Some(engine_origin() + h),
            _ => cites_link(hrefs.drop_first()),
        }
    }
}

/// The identifier text of a result container: the `id` of its title anchor.
pub open spec fn container_id_text(block: Seq<char>) -> Seq<char> {
    let ids = attr_matches(block, title_selector(), "id"@);
    if ids.len() > 0 && ids[0] is Some {
        ids[0]->0
    } else {
        Seq::empty()
    }
}

/// The year of a result container, 0 when its publication info holds none.
pub open spec fn container_year(block: Seq<char>) -> u32 {
    match year_in_text(strip_tags_spec(first_or_empty(inner_html_matches(block, info_selector())))) {
        Some(y) => y,
        None => 0,
    }
}

/// The record of one result container; none where its identifier is not
/// twelve bytes.
pub open spec fn container_record(block: Seq<char>) -> Option<NodeView> {
    let id = encode_utf8(container_id_text(block));
    if id.len() == 12 {
        Some(
            NodeView {
                id,
                title: strip_tags_spec(first_or_empty(inner_html_matches(block, title_selector()))),
                year: container_year(block),
                url: cites_link(attr_matches(block, action_selector(), "href"@)),
                cited_by: Seq::empty(),
            },
        )
    } else {
        None
    }
}

/// The record of one result block, read from the first result container in
/// it; none where it has no container or the identifier is not twelve bytes.
pub open spec fn block_record(block: Seq<char>) -> Option<NodeView> {
    let cs = outer_html_matches(block, result_selector());
    if cs.len() > 0 {
        container_record(cs[0])
    } else {
        None
    }
}

/// The records of the given result blocks, in order, skipping dropped ones.
pub open spec fn records_of_blocks(blocks: Seq<Seq<char>>) -> Seq<NodeView>
    decreases blocks.len(),
{
    if blocks.len() == 0 {
        Seq::empty()
    } else {
        let rest = records_of_blocks(blocks.drop_last());
        match block_record(blocks.last()) {
            Some(r) => rest.push(r),
            None => rest,
        }
    }
}

/// The records of a result page, in document order.
pub open spec fn page_records(html: Seq<char>) -> Seq<NodeView> {
    records_of_blocks(outer_html_matches(html, result_selector()))
}

pub open spec fn nodes_view(v: Seq<PaperNode>) -> Seq<NodeView> {
    v.map_values(|n: PaperNode| n@)
}

/// Removes every markup tag from the text.
pub fn remove_html_tags(s: &str) -> (r: String)
    ensures
        r@ == strip_tags_spec(s@),
        r@.len() <= s@.len(),
{
    regex_erase("<[^>]*>", s)
}

/// The first integer literal in `tokens` that exceeds 1000.
pub fn year_from_tokens(tokens: &Vec<String>) -> (r: Option<u32>)
    ensures
        r == year_in_tokens(texts(tokens@)),
{
    let mut i: usize = 0;
    assert(texts(tokens@).subrange(0, tokens@.len() as int) =~= texts(tokens@));
    while i < tokens.len()
        invariant
            i <= tokens@.len(),
            year_in_tokens(texts(tokens@)) == year_in_tokens(texts(tokens@).subrange(i as int, tokens@.len() as int)),
        decreases tokens@.len() - i,
    {
        let t = &tokens[i];
        let ghost rest = texts(tokens@).subrange(i as int, tokens@.len() as int);
        assert(rest[0] == t@);
        assert(rest.drop_first() =~= texts(tokens@).subrange(i + 1, tokens@.len() as int));
        match parse_i32(t.as_str()) {
            Some(n) => {
                if n > 1000 {
                    return Some(n as u32);
                }
            },
            None => {},
        }
        i = i + 1;
    }
    assert(texts(tokens@).subrange(i as int, tokens@.len() as int) =~= Seq::empty());
    None
}

/// Empty tokens hold no year.
pub proof fn lemma_no_year_in_empty_tokens(tokens: Seq<Seq<char>>)
    requires
        forall|i: int| 0 <= i < tokens.len() ==> (#[trigger] tokens[i]).len() == 0,
    ensures
        year_in_tokens(tokens) is None,
    decreases tokens.len(),
{
    if tokens.len() > 0 {
        assert(parse_i32_spec(tokens[0]) is None);
        assert forall|i: int| 0 <= i < tokens.drop_first().len() implies (#[trigger] tokens.drop_first()[i]).len() == 0 by {
            assert(tokens.drop_first()[i] == tokens[i + 1]);
        }
        lemma_no_year_in_empty_tokens(tokens.drop_first());
    }
}

/// The records of consecutive runs of blocks are the records of each run.
pub proof fn lemma_records_concat(a: Seq<Seq<char>>, b: Seq<Seq<char>>)
    ensures
        records_of_blocks(a + b) == records_of_blocks(a) + records_of_blocks(b),
    decreases b.len(),
{
    if b.len() == 0 {
        assert(a + b =~= a);
        assert(records_of_blocks(a) + records_of_blocks(b) =~= records_of_blocks(a));
    } else {
        lemma_records_concat(a, b.drop_last());
        assert((a + b).drop_last() =~= a + b.drop_last());
        assert((a + b).last() == b.last());
        match block_record(b.last()) {
            Some(r) => {
                assert(records_of_blocks(a) + records_of_blocks(b) =~= (records_of_blocks(a)
                    + records_of_blocks(b.drop_last())).push(r));
            },
            None => {},
        }
    }
}

/// A result block whose first container has no identifier of twelve bytes
/// (or that has no container) yields no record, wherever it stands: the
/// page's records are those of the other blocks.
pub proof fn lemma_malformed_block_dropped(before: Seq<Seq<char>>, block: Seq<char>, after: Seq<Seq<char>>)
    requires
        ({
            let cs = outer_html_matches(block, result_selector());
            cs.len() == 0 || encode_utf8(container_id_text(cs[0])).len() != 12
        }),
    ensures
        records_of_blocks(before.push(block) + after) == records_of_blocks(before + after),
{
    lemma_records_concat(before.push(block), after);
    lemma_records_concat(before, after);
    assert(before.push(block).drop_last() =~= before);
}

/// Every record of a page has a twelve-byte identifier and is the record of
/// one of the page's blocks, whose anchor identifier it carries.
pub proof fn lemma_records_from_blocks(blocks: Seq<Seq<char>>)
    ensures
        forall|j: int|
            0 <= j < records_of_blocks(blocks).len() ==> (#[trigger] records_of_blocks(blocks)[j]).id.len() == 12
                && exists|i: int| 0 <= i < blocks.len() && block_record(#[trigger] blocks[i]) == Some(records_of_blocks(blocks)[j]),
    decreases blocks.len(),
{
    if blocks.len() > 0 {
        let rest = blocks.drop_last();
        lemma_records_from_blocks(rest);
        let rr = records_of_blocks(rest);
        let all = records_of_blocks(blocks);
        assert forall|j: int| 0 <= j < all.len() implies (#[trigger] all[j]).id.len() == 12
            && exists|i: int| 0 <= i < blocks.len() && block_record(#[trigger] blocks[i]) == Some(all[j]) by {
            if j < rr.len() {
                assert(all[j] == rr[j]);
                let i = choose|i: int| 0 <= i < rest.len() && block_record(#[trigger] rest[i]) == Some(rr[j]);
                assert(blocks[i] == rest[i]);
            } else {
                assert(block_record(blocks[blocks.len() - 1]) == Some(all[j]));
            }
        }
    }
}

/// The first integer literal (an optional minus, then digits) in the text
/// that exceeds 1000, taken as a publication year.
pub fn find_year_in_string(text: &str) -> (r: Option<u32>)
    ensures
        r == year_in_text(text@),
        text@.len() == 0 ==> r is None,
{
    let tokens = regex_find_all("-?\\d+", text);
    proof {
        if text@.len() == 0 {
            lemma_no_year_in_empty_tokens(texts(tokens@));
        }
    }
    year_from_tokens(&tokens)
}

/// The first `href` that begins with the citer-listing prefix, made absolute.
pub fn cited_by_link(hrefs: &Vec<Option<String>>) -> (r: Option<String>)
    ensures
        opt_text(r) == cites_link(opt_texts(hrefs@)),
{
    let mut i: usize = 0;
    assert(opt_texts(hrefs@).subrange(0, hrefs@.len() as int) =~= opt_texts(hrefs@));
    while i < hrefs.len()
        invariant
            i <= hrefs@.len(),
            cites_link(opt_texts(hrefs@)) == cites_link(opt_texts(hrefs@).subrange(i as int, hrefs@.len() as int)),
        decreases hrefs@.len() - i,
    {
        let ghost rest = opt_texts(hrefs@).subrange(i as int, hrefs@.len() as int);
        assert(rest[0] == opt_text(hrefs@[i as int]));
        assert(rest.drop_first() =~= opt_texts(hrefs@).subrange(i + 1, hrefs@.len() as int));
        match &hrefs[i] {
            Some(h) => {
                if has_prefix(h.as_str(), "/scholar?cites=") {
                    proof {
                        reveal_strlit("");
                        assert(engine_origin() + h@ + ""@ =~= engine_origin() + h@);
                    }
                    return Some(join3("https://scholar.google.com/", h.as_str(), ""));
                }
            },
            None => {},
        }
        i = i + 1;
    }
    assert(opt_texts(hrefs@).subrange(i as int, hrefs@.len() as int) =~= Seq::empty());
    None
}

/// The record of one result block, read from its first result container, or
/// none where it has no container or the identifier is missing or not twelve
/// bytes long.
pub fn div_frag_into_node(block: &str) -> (r: Option<PaperNode>)
    ensures
        match r {
            Some(n) => block_record(block@) == Some(n@),
            None => block_record(block@) is None,
        },
{
    let containers = select_outer(block, "div.gs_ri");
    if containers.len() == 0 {
        return None;
    }
    container_into_node(containers[0].as_str())
}

/// The record of one result container, or none where its identifier is
/// missing or not twelve bytes long.
pub fn container_into_node(block: &str) -> (r: Option<PaperNode>)
    ensures
        match r {
            Some(n) => container_record(block@) == Some(n@),
            None => container_record(block@) is None,
        },
        inner_html_matches(block@, info_selector()).len() == 0 ==> container_year(block@) == 0,
{
    let infos = select_inner(block, "div.gs_ri div.gs_a");
    let info_html: String = if infos.len() > 0 {
        infos[0].clone()
    } else {
        String::new()
    };
    let info_text = remove_html_tags(info_html.as_str());
    let year: u32 = match find_year_in_string(info_text.as_str()) {
        Some(y) => y,
        None => 0,
    };
    let ids = select_attr(block, "div.gs_ri h3.gs_rt>a", "id");
    let id_text: String = if ids.len() > 0 {
        match &ids[0] {
            Some(s) => s.clone(),
            None => String::new(),
        }
    } else {
        String::new()
    };
    assert(id_text@ == container_id_text(block@));
    let id = match PaperID::new_from_str(id_text.as_str()) {
        Ok(id) => id,
        Err(_) => {
            return None;
        },
    };
    let titles = select_inner(block, "div.gs_ri h3.gs_rt>a");
    let title_html: String = if titles.len() > 0 {
        titles[0].clone()
    } else {
        String::new()
    };
    let title = remove_html_tags(title_html.as_str());
    let hrefs = select_attr(block, "div.gs_ri div.gs_fl>a", "href");
    let url = cited_by_link(&hrefs);
    Some(PaperNode::new(id, title, year, url))
}

/// Every record of a result page, in document order.
pub fn parse_page_into_paper_nodes(html: &str) -> (r: Vec<PaperNode>)
    ensures
        nodes_view(r@) == page_records(html@),
        html@.len() == 0 ==> r@.len() == 0,
{
    let blocks = select_outer(html, "div.gs_ri");
    let mut out: Vec<PaperNode> = Vec::new();
    let mut i: usize = 0;
    while i < blocks.len()
        invariant
            i <= blocks@.len(),
            texts(blocks@) == outer_html_matches(html@, result_selector()),
            nodes_view(out@) == records_of_blocks(texts(blocks@).subrange(0, i as int)),
        decreases blocks@.len() - i,
    {
        let ghost sub = texts(blocks@).subrange(0, i + 1);
        assert(sub.drop_last() =~= texts(blocks@).subrange(0, i as int));
        assert(sub.last() == blocks@[i as int]@);
        match div_frag_into_node(blocks[i].as_str()) {
            Some(n) => {
                out.push(n);
                assert(nodes_view(out@) =~= records_of_blocks(texts(blocks@).subrange(0, i as int)).push(n@));
            },
            None => {},
        }
        i = i + 1;
    }
    assert(texts(blocks@).subrange(0, i as int) =~= texts(blocks@));
    out
}

pub proof fn lemma_records_at_most_blocks(blocks: Seq<Seq<char>>)
    ensures
        records_of_blocks(blocks).len() <= blocks.len(),
    decreases blocks.len(),
{
    if blocks.len() > 0 {
        lemma_records_at_most_blocks(blocks.drop_last());
    }
}

/// How many result blocks of a page yield no record, because they have no
/// result container or no identifier of twelve bytes; callers warn of them.
pub fn dropped_block_count(html: &str) -> (r: usize)
    ensures
        r == outer_html_matches(html@, result_selector()).len() - page_records(html@).len(),
{
    let blocks = select_outer(html, "div.gs_ri");
    let records = parse_page_into_paper_nodes(html);
    proof {
        lemma_records_at_most_blocks(texts(blocks@));
    }
    blocks.len() - records.len()
}

} // verus!
