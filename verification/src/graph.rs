//! The cross-reference graph: a mapping from a target symbol to the ordered
//! list of backlinks recorded against it.  It grows monotonically across the
//! indexing and rewriting phases and is consumed once by the attachment pass.

use vstd::prelude::*;
use crate::links::{same_symbol_spec, Backlink, BacklinkView, SymbolLink, SymbolLinkView};

verus! {

/// One graph entry in the model: the target symbol and its recorded edges.
pub type UsageEntryView = (SymbolLinkView, Seq<BacklinkView>);

/// The first entry whose key addresses the same entity as `k`, if any.
pub open spec fn find_entry(g: Seq<UsageEntryView>, k: SymbolLinkView) -> Option<int>
    decreases g.len(),
{
    if g.len() == 0 {
        None
    } else if same_symbol_spec(g[0].0, k) {
        Some(0int)
    } else {
        match find_entry(g.drop_first(), k) {
            Some(i) => Some(i + 1),
            None => None,
        }
    }
}

pub proof fn lemma_find_entry(g: Seq<UsageEntryView>, k: SymbolLinkView)
    ensures
        match find_entry(g, k) {
            Some(i) => 0 <= i < g.len() && same_symbol_spec(g[i].0, k) && forall|j: int|
                0 <= j < i ==> !same_symbol_spec(g[j].0, k),
            None => forall|j: int| 0 <= j < g.len() ==> !same_symbol_spec(g[j].0, k),
        },
    decreases g.len(),
{
    if g.len() == 0 {
    } else if same_symbol_spec(g[0].0, k) {
    } else {
        lemma_find_entry(g.drop_first(), k);
        match find_entry(g.drop_first(), k) {
            Some(i) => {
                assert(g.drop_first()[i] == g[i + 1]);
                assert forall|j: int| 0 <= j < i + 1 implies !same_symbol_spec(
                    g[j].0,
                    k,
                ) by {
                    if j > 0 {
                        assert(g.drop_first()[j - 1] == g[j]);
                    }
                }
            },
            None => {
                assert forall|j: int| 0 <= j < g.len() implies !same_symbol_spec(
                    g[j].0,
                    k,
                ) by {
                    if j > 0 {
                        assert(g.drop_first()[j - 1] == g[j]);
                    }
                }
            },
        }
    }
}

pub proof fn lemma_find_entry_unique(g: Seq<UsageEntryView>, k: SymbolLinkView, i: int)
    requires
        0 <= i < g.len(),
        same_symbol_spec(g[i].0, k),
        forall|j: int| 0 <= j < i ==> !same_symbol_spec(g[j].0, k),
    ensures
        find_entry(g, k) == Some(i),
{
    lemma_find_entry(g, k);
    match find_entry(g, k) {
        Some(m) => {
            if m < i {
                assert(!same_symbol_spec(g[m].0, k));
            } else if m > i {
                assert(!same_symbol_spec(g[i].0, k));
            }
        },
        None => {
            assert(!same_symbol_spec(g[i].0, k));
        },
    }
}

pub proof fn lemma_find_entry_none(g: Seq<UsageEntryView>, k: SymbolLinkView)
    requires
        forall|j: int| 0 <= j < g.len() ==> !same_symbol_spec(g[j].0, k),
    ensures
        find_entry(g, k) is None,
{
    lemma_find_entry(g, k);
    if let Some(i) = find_entry(g, k) {
        assert(!same_symbol_spec(g[i].0, k));
    }
}

/// The graph after making sure `k` has an entry: unchanged when one exists,
/// otherwise extended with an empty edge list for `k`.
pub open spec fn ensure_entry_spec(g: Seq<UsageEntryView>, k: SymbolLinkView) -> Seq<
    UsageEntryView,
> {
    match find_entry(g, k) {
        Some(_) => g,
        None => g.push((k, Seq::empty())),
    }
}

/// The graph after appending edge `e` to `k`'s entry, creating the entry if
/// it does not exist yet.
pub open spec fn push_edge_spec(
    g: Seq<UsageEntryView>,
    k: SymbolLinkView,
    e: BacklinkView,
) -> Seq<UsageEntryView> {
    match find_entry(g, k) {
        Some(i) => g.update(i, (g[i].0, g[i].1.push(e))),
        None => g.push((k, seq![e])),
    }
}

/// The graph only grows: every entry keeps its key and its edges, in order;
/// entries and edges are never removed or reordered.
pub open spec fn graph_monotone(g0: Seq<UsageEntryView>, g1: Seq<UsageEntryView>) -> bool {
    &&& g1.len() >= g0.len()
    &&& forall|i: int|
        0 <= i < g0.len() ==> (#[trigger] g1[i]).0 == g0[i].0 && g0[i].1.is_prefix_of(
            g1[i].1,
        )
}

pub proof fn lemma_graph_monotone_refl(g: Seq<UsageEntryView>)
    ensures
        graph_monotone(g, g),
{
    assert forall|i: int| 0 <= i < g.len() implies (#[trigger] g[i]).0 == g[i].0 && g[i]
        .1.is_prefix_of(g[i].1) by {
        assert(g[i].1 =~= g[i].1.subrange(0, g[i].1.len() as int));
    }
}

pub proof fn lemma_graph_monotone_trans(
    g0: Seq<UsageEntryView>,
    g1: Seq<UsageEntryView>,
    g2: Seq<UsageEntryView>,
)
    requires
        graph_monotone(g0, g1),
        graph_monotone(g1, g2),
    ensures
        graph_monotone(g0, g2),
{
    assert forall|i: int| 0 <= i < g0.len() implies (#[trigger] g2[i]).0 == g0[i].0
        && g0[i].1.is_prefix_of(g2[i].1) by {
        assert(g1[i].0 == g0[i].0);
        assert(g0[i].1.is_prefix_of(g1[i].1));
        assert(g1[i].1.is_prefix_of(g2[i].1));
        assert(g0[i].1 =~= g2[i].1.subrange(0, g0[i].1.len() as int));
    }
}

/// Appending one edge grows the graph by exactly that edge, at an existing
/// entry or in a fresh one.
pub proof fn lemma_push_edge_spec_monotone(
    g: Seq<UsageEntryView>,
    k: SymbolLinkView,
    e: BacklinkView,
)
    ensures
        graph_monotone(g, push_edge_spec(g, k, e)),
        forall|i: int, j: int|
            0 <= i < g.len() && g[i].1.len() <= j < push_edge_spec(g, k, e)[i].1.len()
                ==> #[trigger] push_edge_spec(g, k, e)[i].1[j] == e,
        forall|i: int, j: int|
            g.len() <= i < push_edge_spec(g, k, e).len() && 0 <= j < push_edge_spec(
                g,
                k,
                e,
            )[i].1.len() ==> #[trigger] push_edge_spec(g, k, e)[i].1[j] == e,
{
    let g1 = push_edge_spec(g, k, e);
    lemma_find_entry(g, k);
    assert forall|i: int| 0 <= i < g.len() implies (#[trigger] g1[i]).0 == g[i].0
        && g[i].1.is_prefix_of(g1[i].1) by {
        assert(g[i].1 =~= g1[i].1.subrange(0, g[i].1.len() as int));
    }
}

/// No two entries address the same entity.
pub open spec fn graph_wf(g: Seq<UsageEntryView>) -> bool {
    forall|i: int, j: int|
        0 <= i < j < g.len() ==> !same_symbol_spec(#[trigger] g[i].0, #[trigger] g[j].0)
}

/// The cross-reference graph, keyed by symbol identity (path, symbol and
/// property; display-only fields take no part in the key).
#[derive(Debug)]
pub struct SymbolUsages {
    entries: Vec<(SymbolLink, Vec<Backlink>)>,
}

impl View for SymbolUsages {
    type V = Seq<UsageEntryView>;

    closed spec fn view(&self) -> Seq<UsageEntryView> {
        self.entries@.map_values(
            |e: (SymbolLink, Vec<Backlink>)| (e.0@, e.1@.map_values(|b: Backlink| b@)),
        )
    }
}

impl SymbolUsages {
    pub fn new() -> (r: SymbolUsages)
        ensures
            r@ =~= Seq::<UsageEntryView>::empty(),
            graph_wf(r@),
    {
        SymbolUsages { entries: Vec::new() }
    }

    /// Number of entries (known symbols) in the graph.
    pub fn len(&self) -> (r: usize)
        ensures
            r == self@.len(),
    {
        self.entries.len()
    }

    /// Index of the entry addressing the same entity as `k`, if any.
    fn find_idx(&self, k: &SymbolLink) -> (r: Option<usize>)
        ensures
            match r {
                Some(i) => find_entry(self@, k@) == Some(i as int),
                None => find_entry(self@, k@) is None,
            },
    {
        let n = self.entries.len();
        let mut i: usize = 0;
        while i < n
            invariant
                n == self.entries@.len(),
                0 <= i <= n,
                forall|j: int| 0 <= j < i ==> !same_symbol_spec(self@[j].0, k@),
            decreases n - i,
        {
            if self.entries[i].0.same_symbol(k) {
                proof {
                    lemma_find_entry_unique(self@, k@, i as int);
                }
                return Some(i);
            }
            i = i + 1;
        }
        proof {
            lemma_find_entry_none(self@, k@);
        }
        None
    }

    /// Make sure `k` is a known symbol, with an empty edge list if it was
    /// unknown.
    pub fn ensure_entry(&mut self, k: &SymbolLink)
        ensures
            final(self)@ == ensure_entry_spec(old(self)@, k@),
            graph_wf(old(self)@) ==> graph_wf(final(self)@),
    {
        match self.find_idx(k) {
            Some(_) => {},
            None => {
                proof {
                    lemma_find_entry(self@, k@);
                }
                self.entries.push((k.duplicate(), Vec::new()));
                proof {
                    assert(final(self)@ =~~= old(self)@.push(
                        (k@, Seq::<BacklinkView>::empty()),
                    ));
                }
            },
        }
    }

    /// Append edge `e` to `k`'s entry, creating the entry if needed.
    pub fn push_edge(&mut self, k: &SymbolLink, e: Backlink)
        ensures
            final(self)@ == push_edge_spec(old(self)@, k@, e@),
            graph_wf(old(self)@) ==> graph_wf(final(self)@),
    {
        match self.find_idx(k) {
            Some(i) => {
                proof {
                    lemma_find_entry(old(self)@, k@);
                }
                let ghost g0 = self.entries@;
                let (key, mut edges) = self.entries.remove(i);
                edges.push(e);
                self.entries.insert(i, (key, edges));
                proof {
                    let g = old(self)@;
                    let ii = i as int;
                    assert(self.entries@ =~= g0.update(ii, (g0[ii].0, self.entries@[ii].1)));
                    assert(self.entries@[ii].1@ =~= g0[ii].1@.push(e));
                    assert(g0[ii].1@.push(e).map_values(|b: Backlink| b@) =~= g0[ii].1@
                        .map_values(|b: Backlink| b@).push(e@));
                    assert(final(self)@ =~~= g.update(ii, (g[ii].0, g[ii].1.push(e@))));
                    assert forall|a: int, b: int|
                        0 <= a < b < final(self)@.len() implies (final(self)@[a].0
                        == g[a].0 && final(self)@[b].0 == g[b].0) by {}
                }
            },
            None => {
                proof {
                    lemma_find_entry(self@, k@);
                }
                self.entries.push((k.duplicate(), seq_one(e)));
                proof {
                    assert(final(self)@ =~~= old(self)@.push((k@, seq![e@])));
                }
            },
        }
    }

    /// The edges recorded against `k`, if it is a known symbol.
    pub fn get_edges(&self, k: &SymbolLink) -> (r: Option<&Vec<Backlink>>)
        ensures
            match find_entry(self@, k@) {
                Some(i) => r is Some && r->Some_0@.map_values(|b: Backlink| b@)
                    == self@[i].1,
                None => r is None,
            },
    {
        match self.find_idx(k) {
            Some(i) => {
                proof {
                    lemma_find_entry(self@, k@);
                    assert(self@[i as int] == (
                        self.entries@[i as int].0@,
                        self.entries@[i as int].1@.map_values(|b: Backlink| b@),
                    ));
                }
                Some(&self.entries[i].1)
            },
            None => None,
        }
    }

    /// The known symbols, in insertion order.
    pub fn keys(&self) -> (r: Vec<SymbolLink>)
        ensures
            r@.map_values(|l: SymbolLink| l@) =~= self@.map_values(
                |e: UsageEntryView| e.0,
            ),
    {
        let n = self.entries.len();
        let mut r: Vec<SymbolLink> = Vec::new();
        let mut i: usize = 0;
        while i < n
            invariant
                n == self.entries@.len(),
                0 <= i <= n,
                r@.len() == i,
                forall|j: int| 0 <= j < i ==> r@[j]@ == self@[j].0,
            decreases n - i,
        {
            r.push(self.entries[i].0.duplicate());
            i = i + 1;
        }
        r
    }
}

/// A one-element vector, spelled out because contracts speak of its view.
fn seq_one(e: Backlink) -> (r: Vec<Backlink>)
    ensures
        r@ =~= seq![e],
{
    let mut r: Vec<Backlink> = Vec::new();
    r.push(e);
    r
}

} // verus!
