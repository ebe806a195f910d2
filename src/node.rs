use vstd::prelude::*;
use crate::paper_id::PaperID;

verus! {

/// What a paper node holds, as plain values.
pub struct NodeView {
    pub id: Seq<u8>,
    pub title: Seq<char>,
    pub year: u32,
    pub url: Option<Seq<char>>,
    pub cited_by: Seq<Seq<u8>>,
}

pub open spec fn opt_text(o: Option<String>) -> Option<Seq<char>> {
    match o {
        Some(s) => Some(s@),
        None => None,
    }
}

pub open spec fn ids_view(v: Seq<PaperID>) -> Seq<Seq<u8>> {
    v.map_values(|x: PaperID| x@)
}

/// One paper: its identifier, title with markup stripped, year (0 when
/// unknown), the URL listing its citers if the source gave one, and the
/// identifiers of the papers known to cite it.
pub struct PaperNode {
    pub(crate) cited_by_url: Option<String>,
    pub(crate) cited_by: Vec<PaperID>,
    pub(crate) id: PaperID,
    pub(crate) title_abbr: String,
    pub(crate) year: u32,
}

impl View for PaperNode {
    type V = NodeView;

    closed spec fn view(&self) -> NodeView {
        NodeView {
            id: self.id@,
            title: self.title_abbr@,
            year: self.year,
            url: opt_text(self.cited_by_url),
            cited_by: ids_view(self.cited_by@),
        }
    }
}

/// Every node's identifier has twelve bytes.
pub broadcast proof fn lemma_node_id_len(n: PaperNode)
    ensures
        #[trigger] n@.id.len() == 12,
{
    crate::paper_id::lemma_id_len(n.id);
}

impl PaperNode {
    /// A node that no paper is yet known to cite.
    pub fn new(id: PaperID, title_abbr: String, year: u32, cited_by_url: Option<String>) -> (r: PaperNode)
        ensures
            r@ == (NodeView {
                id: id@,
                title: title_abbr@,
                year,
                url: opt_text(cited_by_url),
                cited_by: Seq::empty(),
            }),
    {
        let r = PaperNode { cited_by_url, cited_by: Vec::new(), id, title_abbr, year };
        assert(ids_view(r.cited_by@) =~= Seq::empty());
        r
    }

    /// The identifier.
    pub fn id(&self) -> (r: PaperID)
        ensures
            r@ == self@.id,
    {
        self.id
    }

    /// The year of publication, 0 when unknown.
    pub fn year(&self) -> (r: u32)
        ensures
            r == self@.year,
    {
        self.year
    }

    /// The URL listing the papers that cite this one, if known.
    pub fn cited_by_url(&self) -> (r: Option<String>)
        ensures
            opt_text(r) == self@.url,
    {
        match &self.cited_by_url {
            Some(u) => Some(u.clone()),
            None => None,
        }
    }

    /// Whether a page of citers is known for this node.
    pub fn is_expandable(&self) -> (r: bool)
        ensures
            r == (self@.url is Some),
    {
        self.cited_by_url.is_some()
    }

    /// The identifiers of the papers known to cite this one, in the order
    /// they were found.
    pub fn cited_by(&self) -> (r: Vec<PaperID>)
        ensures
            ids_view(r@) == self@.cited_by,
    {
        let mut r: Vec<PaperID> = Vec::new();
        let mut i: usize = 0;
        while i < self.cited_by.len()
            invariant
                i <= self.cited_by@.len(),
                r@ =~= self.cited_by@.subrange(0, i as int),
            decreases self.cited_by@.len() - i,
        {
            r.push(self.cited_by[i]);
            i = i + 1;
        }
        assert(self.cited_by@.subrange(0, i as int) =~= self.cited_by@);
        r
    }

    /// Whether `id` is among the citers.
    pub fn cites(&self, id: &PaperID) -> (r: bool)
        ensures
            r == self@.cited_by.contains(id@),
    {
        let mut i: usize = 0;
        while i < self.cited_by.len()
            invariant
                i <= self.cited_by@.len(),
                forall|j: int| 0 <= j < i ==> ids_view(self.cited_by@)[j] != id@,
            decreases self.cited_by@.len() - i,
        {
            if self.cited_by[i].same_as(id) {
                assert(ids_view(self.cited_by@)[i as int] == id@);
                return true;
            }
            i = i + 1;
        }
        false
    }

    /// Records `id` as a citer.
    pub(crate) fn add_citer(&mut self, id: PaperID)
        ensures
            final(self)@ == (NodeView { cited_by: old(self)@.cited_by.push(id@), ..old(self)@ }),
    {
        self.cited_by.push(id);
        assert(ids_view(self.cited_by@) =~= ids_view(old(self).cited_by@).push(id@));
    }

    /// Forgets the citers.
    pub(crate) fn clear_citers(&mut self)
        ensures
            final(self)@ == (NodeView { cited_by: Seq::empty(), ..old(self)@ }),
    {
        self.cited_by = Vec::new();
        assert(ids_view(self.cited_by@) =~= Seq::empty());
    }

    /// The title, markup stripped.
    pub fn get_title(&self) -> (r: String)
        ensures
            r@ == self@.title,
    {
        self.title_abbr.clone()
    }
}

} // verus!
