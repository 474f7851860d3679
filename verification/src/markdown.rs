//! The content rewriter: scans a page's prose for embedded `proto!(<query>)`
//! references, resolves each against the known symbols, records a content
//! backlink into the cross-reference graph, and replaces the reference with a
//! rendered anchor.  All other constructs pass through untouched.
//!
//! The prose is parsed into an event stream and serialized back by an outside
//! Markdown library behind trusted wrappers; every decision between the two
//! calls is verified.

use vstd::prelude::*;
use crate::error::PreprocessError;
use crate::graph::{
    graph_monotone, lemma_graph_monotone_refl, lemma_graph_monotone_trans, push_edge_spec,
    SymbolUsages, UsageEntryView,
};
use crate::links::{
    fqsl_of, href_of, label_of, opt_view, Backlink, BacklinkView, ContentLink,
    ContentLinkView, SymbolLink, SymbolLinkView,
};
use crate::resolve::{matching_candidates, resolution_error_spec, resolve_query};
use crate::strutil::{dec_str, find_sub, rfind_char_spec, usize_to_dec};
use crate::strutil;

verus! {

/// Mathematical model of a `Page`.
pub ghost struct PageView {
    pub name: Seq<char>,
    pub content: Seq<char>,
    pub path: Option<Seq<char>>,
}

/// One documentation page: a display name, its prose, and an optional
/// routing path.  Pages without a path (drafts) are rewritten but never
/// back-linked to.
#[derive(Debug)]
pub struct Page {
    pub name: String,
    pub content: String,
    pub path: Option<String>,
}

impl View for Page {
    type V = PageView;

    open spec fn view(&self) -> PageView {
        PageView { name: self.name@, content: self.content@, path: opt_view(self.path) }
    }
}

/// Mathematical model of an `EventKind`.
pub ghost enum EventKindView {
    LinkStart { dest: Seq<char> },
    Text { text: Seq<char> },
    LinkEnd,
    Other,
}

/// What the rewriter reads out of one Markdown event: the start of a link
/// with its destination, a text run, the end of a link, or anything else.
#[derive(Debug)]
pub enum EventKind {
    LinkStart { dest: String },
    Text { text: String },
    LinkEnd,
    Other,
}

impl View for EventKind {
    type V = EventKindView;

    open spec fn view(&self) -> EventKindView {
        match self {
            EventKind::LinkStart { dest } => EventKindView::LinkStart { dest: dest@ },
            EventKind::Text { text } => EventKindView::Text { text: text@ },
            EventKind::LinkEnd => EventKindView::LinkEnd,
            EventKind::Other => EventKindView::Other,
        }
    }
}

/// What the rewriter does with one event: pass it through, drop it, or
/// replace it with a rendered inline-HTML anchor.
#[derive(Debug)]
pub enum RewriteAction {
    Keep,
    Drop,
    Html(String),
}

/// Mathematical model of a `RewriteAction`.
pub ghost enum RewriteActionView {
    Keep,
    Drop,
    Html(Seq<char>),
}

impl View for RewriteAction {
    type V = RewriteActionView;

    open spec fn view(&self) -> RewriteActionView {
        match self {
            RewriteAction::Keep => RewriteActionView::Keep,
            RewriteAction::Drop => RewriteActionView::Drop,
            RewriteAction::Html(s) => RewriteActionView::Html(s@),
        }
    }
}

// ---------------------------------------------------------------------------
// Trusted wrappers around the outside Markdown libraries
// ---------------------------------------------------------------------------

#[verifier::external_type_specification]
#[verifier::external_body]
pub struct ExEvent<'a>(pulldown_cmark::Event<'a>);

/// What the Markdown parser yields for a page's prose; the event stream is a
/// function of the text alone.
pub uninterp spec fn md_events_of(content: Seq<char>) -> Seq<pulldown_cmark::Event<'static>>;

/// How the rewriter reads one parsed event; a function of the event alone.
pub uninterp spec fn event_kind_of(e: pulldown_cmark::Event<'static>) -> EventKindView;

/// The inline-HTML event that carries one piece of rendered anchor text; a
/// function of the text alone.
pub uninterp spec fn inline_html_event_of(html: Seq<char>) -> pulldown_cmark::Event<
    'static,
>;

/// What the serializer renders an event stream back to — the page text, or
/// an error message; a function of the events alone.
pub uninterp spec fn cmark_of(events: Seq<pulldown_cmark::Event<'static>>) -> Result<
    Seq<char>,
    Seq<char>,
>;

/// Relies on pulldown_cmark::Parser::new_ext: parses CommonMark (with
/// tables, footnotes, strikethrough and task lists enabled) into an event
/// stream, made owned so the page text can be replaced.  The stream is
/// deterministic in the text; `md_events_of` names it.
#[verifier::external_body]
fn parse_markdown(content: &str) -> (r: Vec<pulldown_cmark::Event<'static>>)
    ensures
        r@ == md_events_of(content@),
{
    let mut opts = pulldown_cmark::Options::empty();
    opts.insert(pulldown_cmark::Options::ENABLE_TABLES);
    opts.insert(pulldown_cmark::Options::ENABLE_FOOTNOTES);
    opts.insert(pulldown_cmark::Options::ENABLE_STRIKETHROUGH);
    opts.insert(pulldown_cmark::Options::ENABLE_TASKLISTS);
    pulldown_cmark::Parser::new_ext(content, opts).map(|e| e.into_static()).collect()
}

/// Relies on pulldown_cmark::Event: tells link-start, text and link-end
/// events apart and copies out the fields the rewriter reads.  The
/// classification is deterministic in the event; `event_kind_of` names it.
#[verifier::external_body]
fn classify_event(e: &pulldown_cmark::Event<'static>) -> (r: EventKind)
    ensures
        r@ == event_kind_of(*e),
{
    match e {
        pulldown_cmark::Event::Start(pulldown_cmark::Tag::Link { dest_url, .. }) => (
        EventKind::LinkStart { dest: dest_url.to_string() }),
        pulldown_cmark::Event::Text(t) => (EventKind::Text { text: t.to_string() }),
        pulldown_cmark::Event::End(pulldown_cmark::TagEnd::Link) => EventKind::LinkEnd,
        _ => EventKind::Other,
    }
}

/// Relies on pulldown_cmark::Event::InlineHtml and CowStr::from: wraps
/// rendered anchor text as an inline-HTML event, deterministically in the
/// text; `inline_html_event_of` names it.
#[verifier::external_body]
fn inline_html_event(html: String) -> (r: pulldown_cmark::Event<'static>)
    ensures
        r == inline_html_event_of(html@),
{
    pulldown_cmark::Event::InlineHtml(pulldown_cmark::CowStr::from(html))
}

/// Relies on pulldown_cmark_to_cmark::cmark: serializes an event stream back
/// to CommonMark text, with the same options the parser ran with.  The
/// rendering is deterministic in the events; `cmark_of` names the outcome,
/// error text included.
#[verifier::external_body]
fn events_to_markdown(events: &Vec<pulldown_cmark::Event<'static>>) -> (r: Result<
    String,
    String,
>)
    ensures
        cmark_of(events@) == (match r {
            Ok(s) => Ok::<Seq<char>, Seq<char>>(s@),
            Err(m) => Err::<Seq<char>, Seq<char>>(m@),
        }),
{
    let mut opts = pulldown_cmark::Options::empty();
    opts.insert(pulldown_cmark::Options::ENABLE_TABLES);
    opts.insert(pulldown_cmark::Options::ENABLE_FOOTNOTES);
    opts.insert(pulldown_cmark::Options::ENABLE_STRIKETHROUGH);
    opts.insert(pulldown_cmark::Options::ENABLE_TASKLISTS);
    let mut buf = String::new();
    match pulldown_cmark_to_cmark::cmark(events.iter(), &mut buf, opts) {
        Ok(_) => Ok(buf),
        Err(e) => Err(format!("{}", e)),
    }
}

// ---------------------------------------------------------------------------
// The reference syntax
// ---------------------------------------------------------------------------

/// The opening of the reference syntax, character for character.
pub open spec fn proto_prefix() -> Seq<char> {
    seq!['p', 'r', 'o', 't', 'o', '!', '(']
}

/// The query embedded in a link destination: everything between the first
/// `proto!(` and the last `)` after it.  A destination with no such pair
/// carries no reference.
pub open spec fn proto_query_of(dest: Seq<char>) -> Option<Seq<char>> {
    match find_sub(dest, proto_prefix()) {
        None => None,
        Some(i) => {
            let after = dest.skip(i + 7);
            match rfind_char_spec(after, ')') {
                None => None,
                Some(r) => Some(after.take(r)),
            }
        },
    }
}

/// Extract the embedded query from a link destination, if the destination is
/// a reference.
pub fn extract_query(dest: &str) -> (r: Option<String>)
    ensures
        opt_view(r) == proto_query_of(dest@),
{
    proof {
        reveal_strlit("proto!(");
        assert("proto!("@ =~= proto_prefix());
    }
    match strutil::find_sub_str(dest, "proto!(") {
        None => None,
        Some(i) => {
            proof {
                strutil::lemma_find_sub(dest@, proto_prefix());
            }
            let n = dest.unicode_len();
            let after = dest.substring_char(i + 7, n);
            proof {
                assert(after@ =~= dest@.skip(i + 7));
            }
            match strutil::rfind_char(after, ')') {
                None => None,
                Some(rp) => {
                    proof {
                        strutil::lemma_rfind_char(after@, ')');
                    }
                    let q = after.substring_char(0, rp).to_owned();
                    proof {
                        assert(q@ =~= after@.take(rp as int));
                    }
                    Some(q)
                },
            }
        },
    }
}

/// The inline anchor that replaces a resolved reference: its href is the
/// resolved identity's documentation address, its text the display label,
/// and, when the page assigned a citation id, that id as the anchor's own
/// id.
pub open spec fn anchor_html_of(l: SymbolLinkView) -> Seq<char> {
    match l.own_id {
        Some(oid) => "<a id=\""@ + oid + "\" href=\""@ + href_of(l) + "\">"@ + label_of(l)
            + "</a>"@,
        None => "<a href=\""@ + href_of(l) + "\">"@ + label_of(l) + "</a>"@,
    }
}

/// Render the anchor for a resolved reference.
pub fn render_anchor(l: &SymbolLink) -> (r: String)
    ensures
        r@ == anchor_html_of(l@),
{
    let mut r = String::new();
    match &l.own_id {
        Some(oid) => {
            r.append("<a id=\"");
            r.append(oid.as_str());
            r.append("\" href=\"");
        },
        None => {
            r.append("<a href=\"");
        },
    }
    r.append(l.href().as_str());
    r.append("\">");
    r.append(l.label().as_str());
    r.append("</a>");
    r
}

// ---------------------------------------------------------------------------
// The rewrite state machine
// ---------------------------------------------------------------------------

/// The view of an optional in-progress link.
pub open spec fn opt_link_view(o: Option<SymbolLink>) -> Option<SymbolLinkView> {
    match o {
        Some(l) => Some(l@),
        None => None,
    }
}

/// The rewriter's state after some prefix of the event stream: the link
/// being assembled (between its start and end events), the page-scoped
/// citation counter, the graph so far, the actions so far, and the first
/// error if one occurred.
pub ghost struct RewriteState {
    pub cur: Option<SymbolLinkView>,
    pub counter: int,
    pub graph: Seq<UsageEntryView>,
    pub actions: Seq<RewriteActionView>,
    pub err: Option<Seq<char>>,
}

pub open spec fn rewrite_init(g: Seq<UsageEntryView>) -> RewriteState {
    RewriteState {
        cur: None,
        counter: 1,
        graph: g,
        actions: Seq::empty(),
        err: None,
    }
}

/// The citation anchor id of one reference occurrence: the page-scoped
/// counter followed by the resolved identity's canonical name.
pub open spec fn citation_id_of(counter: int, l: SymbolLinkView) -> Seq<char> {
    dec_str(counter as nat) + fqsl_of(l)
}

/// The backlink label of one reference occurrence: the page's title and the
/// citation counter.
pub open spec fn citation_label_of(name: Seq<char>, counter: int) -> Seq<char> {
    name + seq!['['] + dec_str(counter as nat) + seq![']']
}

/// The state with one more passed-through event.
pub open spec fn rewrite_keep(st: RewriteState) -> RewriteState {
    RewriteState { actions: st.actions.push(RewriteActionView::Keep), ..st }
}

/// One step of the rewriter on one classified event.
pub open spec fn rewrite_step(
    st: RewriteState,
    k: EventKindView,
    cands: Seq<SymbolLinkView>,
    page_name: Seq<char>,
    page_path: Option<Seq<char>>,
) -> RewriteState {
    if st.err is Some {
        st
    } else {
        match k {
            EventKindView::LinkStart { dest } => {
                match proto_query_of(dest) {
                    None => rewrite_keep(st),
                    Some(q) => {
                        let ms = matching_candidates(cands, q);
                        if ms.len() == 1 {
                            let l0 = ms[0];
                            match page_path {
                                Some(pp) => {
                                    let cid = citation_id_of(st.counter, l0);
                                    let edge = BacklinkView::Content(
                                        ContentLinkView {
                                            path: pp,
                                            id: cid,
                                            label: citation_label_of(page_name, st.counter),
                                        },
                                    );
                                    RewriteState {
                                        cur: Some(SymbolLinkView { own_id: Some(cid), ..l0 }),
                                        graph: push_edge_spec(st.graph, l0, edge),
                                        actions: st.actions.push(RewriteActionView::Drop),
                                        ..st
                                    }
                                },
                                None => RewriteState {
                                    cur: Some(l0),
                                    actions: st.actions.push(RewriteActionView::Drop),
                                    ..st
                                },
                            }
                        } else {
                            RewriteState {
                                err: Some(resolution_error_spec(cands, q)),
                                ..st
                            }
                        }
                    },
                }
            },
            EventKindView::Text { text } => {
                match st.cur {
                    Some(l) => RewriteState {
                        cur: Some(SymbolLinkView { label_override: Some(text), ..l }),
                        actions: st.actions.push(RewriteActionView::Drop),
                        ..st
                    },
                    None => rewrite_keep(st),
                }
            },
            EventKindView::LinkEnd => {
                match st.cur {
                    Some(l) => RewriteState {
                        cur: None,
                        counter: st.counter + 1,
                        actions: st.actions.push(
                            RewriteActionView::Html(anchor_html_of(l)),
                        ),
                        ..st
                    },
                    None => rewrite_keep(st),
                }
            },
            EventKindView::Other => rewrite_keep(st),
        }
    }
}

/// The rewriter's state after the whole event stream.
pub open spec fn rewrite_run(
    kinds: Seq<EventKindView>,
    cands: Seq<SymbolLinkView>,
    page_name: Seq<char>,
    page_path: Option<Seq<char>>,
    g0: Seq<UsageEntryView>,
) -> RewriteState
    decreases kinds.len(),
{
    if kinds.len() == 0 {
        rewrite_init(g0)
    } else {
        rewrite_step(
            rewrite_run(kinds.drop_last(), cands, page_name, page_path, g0),
            kinds.last(),
            cands,
            page_name,
            page_path,
        )
    }
}

/// Once an error occurred, the remaining events change nothing.
pub proof fn lemma_rewrite_err_stable(
    kinds: Seq<EventKindView>,
    cands: Seq<SymbolLinkView>,
    page_name: Seq<char>,
    page_path: Option<Seq<char>>,
    g0: Seq<UsageEntryView>,
    i: int,
)
    requires
        0 <= i <= kinds.len(),
        rewrite_run(kinds.take(i), cands, page_name, page_path, g0).err is Some,
    ensures
        rewrite_run(kinds, cands, page_name, page_path, g0) == rewrite_run(
            kinds.take(i),
            cands,
            page_name,
            page_path,
            g0,
        ),
    decreases kinds.len(),
{
    if i == kinds.len() {
        assert(kinds.take(i) =~= kinds);
    } else {
        assert(kinds.drop_last().take(i) =~= kinds.take(i));
        lemma_rewrite_err_stable(kinds.drop_last(), cands, page_name, page_path, g0, i);
        assert(rewrite_run(kinds.drop_last(), cands, page_name, page_path, g0).err
            is Some);
    }
}

/// Run the rewriter over a classified event stream: resolve each reference,
/// record content backlinks for pages with a routing path, and produce the
/// per-event actions that rebuild the page.
pub fn rewrite_events(
    kinds: &Vec<EventKind>,
    candidates: &Vec<SymbolLink>,
    page_name: &str,
    page_path: &Option<String>,
    symbol_usages: &mut SymbolUsages,
) -> (r: Result<Vec<RewriteAction>, PreprocessError>)
    requires
        kinds@.len() < usize::MAX,
    ensures
        ({
            let fin = rewrite_run(
                kinds@.map_values(|k: EventKind| k@),
                candidates@.map_values(|l: SymbolLink| l@),
                page_name@,
                opt_view(*page_path),
                old(symbol_usages)@,
            );
            &&& final(symbol_usages)@ == fin.graph
            &&& match r {
                Ok(actions) => fin.err is None && actions@.map_values(
                    |a: RewriteAction| a@,
                ) == fin.actions,
                Err(e) => fin.err == Some(e@),
            }
        }),
{
    let ghost kv = kinds@.map_values(|k: EventKind| k@);
    let ghost cv = candidates@.map_values(|l: SymbolLink| l@);
    let ghost pv = opt_view(*page_path);
    let ghost g0 = old(symbol_usages)@;
    let mut actions: Vec<RewriteAction> = Vec::new();
    let mut current: Option<SymbolLink> = None;
    let mut counter: usize = 1;
    let n = kinds.len();
    let mut i: usize = 0;
    proof {
        assert(kv.take(0) =~= Seq::<EventKindView>::empty());
        assert(actions@.map_values(|a: RewriteAction| a@) =~= Seq::<
            RewriteActionView,
        >::empty());
    }
    while i < n
        invariant
            n == kinds@.len(),
            n < usize::MAX,
            kv == kinds@.map_values(|k: EventKind| k@),
            cv == candidates@.map_values(|l: SymbolLink| l@),
            pv == opt_view(*page_path),
            g0 == old(symbol_usages)@,
            0 <= i <= n,
            counter <= 1 + i,
            ({
                let st = rewrite_run(kv.take(i as int), cv, page_name@, pv, g0);
                &&& st.err is None
                &&& opt_link_view(current) == st.cur
                &&& counter as int == st.counter
                &&& symbol_usages@ == st.graph
                &&& actions@.map_values(|a: RewriteAction| a@) == st.actions
            }),
        decreases n - i,
    {
        let ghost st = rewrite_run(kv.take(i as int), cv, page_name@, pv, g0);
        let ghost st1 = rewrite_run(kv.take(i + 1), cv, page_name@, pv, g0);
        proof {
            assert(kv.take(i + 1).drop_last() =~= kv.take(i as int));
            assert(kv.take(i + 1).last() == kv[i as int]);
            assert(kv[i as int] == kinds@[i as int]@);
            assert(st1 == rewrite_step(st, kv[i as int], cv, page_name@, pv));
        }
        match &kinds[i] {
            EventKind::LinkStart { dest } => {
                match extract_query(dest.as_str()) {
                    None => {
                        actions.push(RewriteAction::Keep);
                        proof {
                            assert(actions@.map_values(|a: RewriteAction| a@)
                                =~= st.actions.push(RewriteActionView::Keep));
                        }
                    },
                    Some(q) => {
                        match resolve_query(q.as_str(), candidates) {
                            Ok(l0) => {
                                let mut l0 = l0;
                                match page_path {
                                    Some(pp) => {
                                        let mut cid = usize_to_dec(counter);
                                        cid.append(l0.fqsl().as_str());
                                        let mut lbl = page_name.to_owned();
                                        proof {
                                            reveal_strlit("[");
                                            reveal_strlit("]");
                                            assert("["@ =~= seq!['[']);
                                            assert("]"@ =~= seq![']']);
                                        }
                                        lbl.append("[");
                                        lbl.append(usize_to_dec(counter).as_str());
                                        lbl.append("]");
                                        let edge = ContentLink {
                                            path: pp.clone(),
                                            id: cid.clone(),
                                            label: lbl,
                                        };
                                        symbol_usages.push_edge(
                                            &l0,
                                            Backlink::Content(edge),
                                        );
                                        l0.set_own_id(cid);
                                        current = Some(l0);
                                        actions.push(RewriteAction::Drop);
                                        proof {
                                            assert(actions@.map_values(
                                                |a: RewriteAction| a@,
                                            ) =~= st.actions.push(RewriteActionView::Drop));
                                        }
                                    },
                                    None => {
                                        current = Some(l0);
                                        actions.push(RewriteAction::Drop);
                                        proof {
                                            assert(actions@.map_values(
                                                |a: RewriteAction| a@,
                                            ) =~= st.actions.push(RewriteActionView::Drop));
                                        }
                                    },
                                }
                            },
                            Err(e) => {
                                proof {
                                    assert(st1.err == Some(e@));
                                    lemma_rewrite_err_stable(
                                        kv,
                                        cv,
                                        page_name@,
                                        pv,
                                        g0,
                                        i + 1,
                                    );
                                }
                                return Err(e);
                            },
                        }
                    },
                }
            },
            EventKind::Text { text } => {
                match current {
                    Some(l) => {
                        let mut l = l;
                        l.set_label(text.clone());
                        current = Some(l);
                        actions.push(RewriteAction::Drop);
                        proof {
                            assert(actions@.map_values(|a: RewriteAction| a@)
                                =~= st.actions.push(RewriteActionView::Drop));
                        }
                    },
                    None => {
                        current = None;
                        actions.push(RewriteAction::Keep);
                        proof {
                            assert(actions@.map_values(|a: RewriteAction| a@)
                                =~= st.actions.push(RewriteActionView::Keep));
                        }
                    },
                }
            },
            EventKind::LinkEnd => {
                match current {
                    Some(l) => {
                        let html = render_anchor(&l);
                        current = None;
                        counter = counter + 1;
                        actions.push(RewriteAction::Html(html));
                        proof {
                            assert(actions@.map_values(|a: RewriteAction| a@)
                                =~= st.actions.push(
                                RewriteActionView::Html(anchor_html_of(l@)),
                            ));
                        }
                    },
                    None => {
                        current = None;
                        actions.push(RewriteAction::Keep);
                        proof {
                            assert(actions@.map_values(|a: RewriteAction| a@)
                                =~= st.actions.push(RewriteActionView::Keep));
                        }
                    },
                }
            },
            EventKind::Other => {
                actions.push(RewriteAction::Keep);
                proof {
                    assert(actions@.map_values(|a: RewriteAction| a@) =~= st.actions.push(
                        RewriteActionView::Keep,
                    ));
                }
            },
        }
        i = i + 1;
    }
    proof {
        assert(kv.take(n as int) =~= kv);
    }
    Ok(actions)
}

// ---------------------------------------------------------------------------
// How rewriting changes the graph
// ---------------------------------------------------------------------------

/// Every edge added on top of `g0` is a content backlink carrying the page
/// path `pp`.
pub open spec fn new_edges_are_content_from(
    g0: Seq<UsageEntryView>,
    g1: Seq<UsageEntryView>,
    pp: Seq<char>,
) -> bool {
    &&& forall|i: int, j: int|
        0 <= i < g0.len() && g0[i].1.len() <= j < g1[i].1.len() ==> ((#[trigger] g1[i].1[j])
            is Content && g1[i].1[j]->Content_0.path == pp)
    &&& forall|i: int, j: int|
        g0.len() <= i < g1.len() && 0 <= j < g1[i].1.len() ==> ((#[trigger] g1[i].1[j])
            is Content && g1[i].1[j]->Content_0.path == pp)
}

/// Appending one content edge keeps the graph monotone, and the one new edge
/// carries the page path.
pub proof fn lemma_push_edge_content(
    g: Seq<UsageEntryView>,
    k: SymbolLinkView,
    c: ContentLinkView,
)
    ensures
        graph_monotone(g, push_edge_spec(g, k, BacklinkView::Content(c))),
        new_edges_are_content_from(g, push_edge_spec(g, k, BacklinkView::Content(c)), c.path),
{
    crate::graph::lemma_push_edge_spec_monotone(g, k, BacklinkView::Content(c));
}

/// Rewriting only ever appends content backlinks that carry the page's own
/// routing path; a page without a path leaves the graph untouched.
pub proof fn lemma_rewrite_graph(
    kinds: Seq<EventKindView>,
    cands: Seq<SymbolLinkView>,
    page_name: Seq<char>,
    page_path: Option<Seq<char>>,
    g0: Seq<UsageEntryView>,
)
    ensures
        ({
            let fin = rewrite_run(kinds, cands, page_name, page_path, g0);
            &&& graph_monotone(g0, fin.graph)
            &&& page_path is None ==> fin.graph == g0
            &&& match page_path {
                Some(pp) => new_edges_are_content_from(g0, fin.graph, pp),
                None => true,
            }
        }),
    decreases kinds.len(),
{
    lemma_graph_monotone_refl(g0);
    if kinds.len() == 0 {
    } else {
        lemma_rewrite_graph(kinds.drop_last(), cands, page_name, page_path, g0);
        let mid = rewrite_run(kinds.drop_last(), cands, page_name, page_path, g0);
        let fin = rewrite_run(kinds, cands, page_name, page_path, g0);
        if mid.err is None {
            match kinds.last() {
                EventKindView::LinkStart { dest } => {
                    match proto_query_of(dest) {
                        Some(q) => {
                            let ms = matching_candidates(cands, q);
                            if ms.len() == 1 {
                                match page_path {
                                    Some(pp) => {
                                        let l0 = ms[0];
                                        let cid = citation_id_of(mid.counter, l0);
                                        let c = ContentLinkView {
                                            path: pp,
                                            id: cid,
                                            label: citation_label_of(page_name, mid.counter),
                                        };
                                        lemma_push_edge_content(mid.graph, l0, c);
                                        lemma_graph_monotone_trans(g0, mid.graph, fin.graph);
                                        assert forall|i: int, j: int|
                                            0 <= i < g0.len() && g0[i].1.len() <= j
                                                < fin.graph[i].1.len() implies ((
                                            #[trigger] fin.graph[i].1[j])
                                            is Content && fin.graph[i].1[j]->Content_0.path
                                            == pp) by {
                                            assert(g0[i].1.len() <= mid.graph[i].1.len());
                                            if j < mid.graph[i].1.len() {
                                                assert(mid.graph[i].1[j] == fin.graph[i].1[j]) by {
                                                    assert(mid.graph[i].1.is_prefix_of(
                                                        fin.graph[i].1,
                                                    ));
                                                }
                                            } else {
                                                assert(mid.graph[i].1.len() <= j);
                                            }
                                        }
                                        assert forall|i: int, j: int|
                                            g0.len() <= i < fin.graph.len() && 0 <= j
                                                < fin.graph[i].1.len() implies ((
                                            #[trigger] fin.graph[i].1[j]) is Content
                                            && fin.graph[i].1[j]->Content_0.path == pp) by {
                                            if i < mid.graph.len() {
                                                if j < mid.graph[i].1.len() {
                                                    assert(mid.graph[i].1[j] == fin.graph[i].1[j])
                                                        by {
                                                        assert(mid.graph[i].1.is_prefix_of(
                                                            fin.graph[i].1,
                                                        ));
                                                    }
                                                }
                                            }
                                        }
                                    },
                                    None => {},
                                }
                            }
                        },
                        None => {},
                    }
                },
                _ => {},
            }
        }
    }
}

/// Is this event the start of a link whose destination carries a reference?
pub open spec fn kind_is_reference(k: EventKindView) -> bool {
    match k {
        EventKindView::LinkStart { dest } => proto_query_of(dest) is Some,
        _ => false,
    }
}

/// The passthrough law: an event stream with no embedded reference is kept
/// verbatim — every event maps to a keep action, the graph is untouched and
/// no error can arise.
pub proof fn lemma_rewrite_passthrough(
    kinds: Seq<EventKindView>,
    cands: Seq<SymbolLinkView>,
    page_name: Seq<char>,
    page_path: Option<Seq<char>>,
    g0: Seq<UsageEntryView>,
)
    requires
        forall|i: int| 0 <= i < kinds.len() ==> !kind_is_reference(#[trigger] kinds[i]),
    ensures
        ({
            let fin = rewrite_run(kinds, cands, page_name, page_path, g0);
            &&& fin.err is None
            &&& fin.graph == g0
            &&& fin.cur is None
            &&& fin.counter == 1
            &&& fin.actions =~= Seq::new(kinds.len(), |i: int| RewriteActionView::Keep)
        }),
    decreases kinds.len(),
{
    if kinds.len() == 0 {
        assert(rewrite_run(kinds, cands, page_name, page_path, g0).actions =~= Seq::new(
            0,
            |i: int| RewriteActionView::Keep,
        ));
    } else {
        lemma_rewrite_passthrough(
            kinds.drop_last(),
            cands,
            page_name,
            page_path,
            g0,
        );
        assert(forall|i: int|
            0 <= i < kinds.len() - 1 ==> kinds.drop_last()[i] == kinds[i]);
        let mid = rewrite_run(kinds.drop_last(), cands, page_name, page_path, g0);
        let fin = rewrite_run(kinds, cands, page_name, page_path, g0);
        assert(!kind_is_reference(kinds.last()));
        assert(fin.actions =~= Seq::new(kinds.len(), |i: int| RewriteActionView::Keep));
    }
}

/// The events that remain after applying the rewriter's per-event actions:
/// kept events verbatim, dropped ones gone, and each rendered anchor as an
/// inline-HTML event.
pub open spec fn replay(
    events: Seq<pulldown_cmark::Event<'static>>,
    actions: Seq<RewriteActionView>,
) -> Seq<pulldown_cmark::Event<'static>>
    decreases actions.len(),
{
    if actions.len() == 0 || events.len() == 0 {
        Seq::empty()
    } else {
        let rest = replay(events.drop_first(), actions.drop_first());
        match actions[0] {
            RewriteActionView::Keep => seq![events[0]] + rest,
            RewriteActionView::Drop => rest,
            RewriteActionView::Html(s) => seq![inline_html_event_of(s)] + rest,
        }
    }
}

/// What rewriting one page against one graph produces: the page's new
/// prose, the grown graph, and the error when the page failed.
pub ghost struct PageRewrite {
    pub content: Seq<char>,
    pub graph: Seq<UsageEntryView>,
    pub err: Option<Seq<char>>,
}

/// The full outcome of `link_proto_symbols` on one page: parse the prose,
/// run the rewriter over the classified events against the graph's current
/// keys, and serialize the replayed stream.  A failed resolution or a
/// failed serialization leaves the prose as it was; an event stream too
/// large for the machine is refused outright.
pub open spec fn rewrite_page_spec(page: PageView, g0: Seq<UsageEntryView>) -> PageRewrite {
    let events = md_events_of(page.content);
    let kinds = events.map_values(|e: pulldown_cmark::Event<'static>| event_kind_of(e));
    let cands = g0.map_values(|en: UsageEntryView| en.0);
    let fin = rewrite_run(kinds, cands, page.name, page.path, g0);
    if kinds.len() >= usize::MAX {
        PageRewrite {
            content: page.content,
            graph: g0,
            err: Some("page produced too many events"@),
        }
    } else if fin.err is Some {
        PageRewrite { content: page.content, graph: fin.graph, err: fin.err }
    } else {
        match cmark_of(replay(events, fin.actions)) {
            Ok(t) => PageRewrite { content: t, graph: fin.graph, err: None },
            Err(m) => PageRewrite { content: page.content, graph: fin.graph, err: Some(m) },
        }
    }
}

/// What rewriting a list of pages in order produces: every page's new
/// prose, the final graph, and the first error; a failing page aborts the
/// remaining pages.
pub ghost struct PagesRewrite {
    pub contents: Seq<Seq<char>>,
    pub graph: Seq<UsageEntryView>,
    pub err: Option<Seq<char>>,
}

pub open spec fn rewrite_pages_spec(
    pages: Seq<PageView>,
    g0: Seq<UsageEntryView>,
) -> PagesRewrite
    decreases pages.len(),
{
    if pages.len() == 0 {
        PagesRewrite { contents: Seq::empty(), graph: g0, err: None }
    } else {
        let o = rewrite_page_spec(pages[0], g0);
        match o.err {
            None => {
                let rest = rewrite_pages_spec(pages.drop_first(), o.graph);
                PagesRewrite {
                    contents: seq![o.content] + rest.contents,
                    graph: rest.graph,
                    err: rest.err,
                }
            },
            Some(m) => PagesRewrite {
                contents: pages.map_values(|p: PageView| p.content),
                graph: o.graph,
                err: Some(m),
            },
        }
    }
}

/// Rewrite one page: parse its prose, resolve every embedded reference,
/// record content backlinks (only for pages with a routing path), and
/// replace the prose with the rewritten text.  Fails on the first
/// unresolved or ambiguous reference, leaving the prose unchanged; the
/// result, the new prose and the grown graph are exactly
/// `rewrite_page_spec` of the old page and graph.
pub fn link_proto_symbols(chapter: &mut Page, symbol_usages: &mut SymbolUsages) -> (r:
    Result<(), PreprocessError>)
    ensures
        final(chapter)@.name == old(chapter)@.name,
        final(chapter)@.path == old(chapter)@.path,
        graph_monotone(old(symbol_usages)@, final(symbol_usages)@),
        old(chapter)@.path is None ==> final(symbol_usages)@ == old(symbol_usages)@,
        match old(chapter)@.path {
            Some(pp) => new_edges_are_content_from(
                old(symbol_usages)@,
                final(symbol_usages)@,
                pp,
            ),
            None => true,
        },
        ({
            let o = rewrite_page_spec(old(chapter)@, old(symbol_usages)@);
            &&& final(symbol_usages)@ == o.graph
            &&& match r {
                Ok(_) => o.err is None && final(chapter)@.content == o.content,
                Err(e) => o.err == Some(e@) && final(chapter)@.content == old(
                    chapter,
                )@.content,
            }
        }),
{
    let ghost page0 = old(chapter)@;
    let ghost g0 = old(symbol_usages)@;
    let ghost ev = md_events_of(page0.content);
    let ghost kspec = ev.map_values(|e: pulldown_cmark::Event<'static>| event_kind_of(e));
    let ghost cands = g0.map_values(|en: UsageEntryView| en.0);

    let links = symbol_usages.keys();
    proof {
        assert(links@.map_values(|l: SymbolLink| l@) =~= cands);
    }
    let mut events = parse_markdown(chapter.content.as_str());
    proof {
        assert(events@ == ev);
    }

    let mut kinds: Vec<EventKind> = Vec::new();
    let mut i: usize = 0;
    while i < events.len()
        invariant
            ev == events@,
            0 <= i <= events@.len(),
            kinds@.len() == i,
            forall|j2: int|
                0 <= j2 < i ==> (#[trigger] kinds@[j2])@ == event_kind_of(ev[j2]),
        decreases events@.len() - i,
    {
        kinds.push(classify_event(&events[i]));
        i = i + 1;
    }
    proof {
        assert(kinds@.map_values(|k: EventKind| k@) =~= kspec);
    }
    if kinds.len() == usize::MAX {
        let mut m = String::new();
        m.append("page produced too many events");
        proof {
            crate::graph::lemma_graph_monotone_refl(g0);
            assert(kspec.len() >= usize::MAX);
        }
        return Err(PreprocessError::new(m));
    }

    let ghost fin = rewrite_run(kspec, cands, page0.name, page0.path, g0);
    let plan = match rewrite_events(
        &kinds,
        &links,
        chapter.name.as_str(),
        &chapter.path,
        symbol_usages,
    ) {
        Ok(plan) => plan,
        Err(e) => {
            proof {
                lemma_rewrite_graph(kspec, cands, page0.name, page0.path, g0);
                assert(fin.err == Some(e@));
            }
            return Err(e);
        },
    };
    proof {
        lemma_rewrite_graph(kspec, cands, page0.name, page0.path, g0);
        assert(plan@.map_values(|a: RewriteAction| a@) == fin.actions);
        assert(fin.err is None);
        assert(symbol_usages@ == fin.graph);
    }

    let ghost a0 = fin.actions;
    let mut out: Vec<pulldown_cmark::Event<'static>> = Vec::new();
    let mut j: usize = 0;
    proof {
        assert(a0.skip(0) == a0);
        assert(out@ + replay(events@, a0.skip(0)) =~= replay(ev, a0));
    }
    while j < plan.len() && events.len() > 0
        invariant
            a0 == plan@.map_values(|a: RewriteAction| a@),
            0 <= j <= plan@.len(),
            replay(ev, a0) =~= out@ + replay(events@, a0.skip(j as int)),
        decreases plan@.len() - j,
    {
        let ghost epre = events@;
        let ghost opre = out@;
        let e = events.remove(0);
        proof {
            assert(e == epre[0]);
            assert(events@ == epre.drop_first());
            assert(a0.skip(j as int).len() == a0.len() - j);
            assert(a0.skip(j as int)[0] == a0[j as int]);
            assert(a0[j as int] == plan@[j as int]@);
            assert(a0.skip(j as int).drop_first() =~= a0.skip(j + 1));
        }
        match &plan[j] {
            RewriteAction::Keep => {
                out.push(e);
                proof {
                    assert(replay(epre, a0.skip(j as int)) == seq![epre[0]] + replay(
                        events@,
                        a0.skip(j + 1),
                    ));
                    assert(opre + (seq![epre[0]] + replay(events@, a0.skip(j + 1))) =~= out@
                        + replay(events@, a0.skip(j + 1)));
                }
            },
            RewriteAction::Drop => {
                proof {
                    assert(replay(epre, a0.skip(j as int)) == replay(
                        events@,
                        a0.skip(j + 1),
                    ));
                }
            },
            RewriteAction::Html(s) => {
                out.push(inline_html_event(s.clone()));
                proof {
                    assert(a0[j as int] == RewriteActionView::Html(s@));
                    assert(replay(epre, a0.skip(j as int)) == seq![
                        inline_html_event_of(s@),
                    ] + replay(events@, a0.skip(j + 1)));
                    assert(opre + (seq![inline_html_event_of(s@)] + replay(
                        events@,
                        a0.skip(j + 1),
                    )) =~= out@ + replay(events@, a0.skip(j + 1)));
                }
            },
        }
        j = j + 1;
    }
    proof {
        assert(replay(events@, a0.skip(j as int)) =~= Seq::<
            pulldown_cmark::Event<'static>,
        >::empty());
        assert(out@ =~= replay(ev, fin.actions));
    }

    match events_to_markdown(&out) {
        Ok(text) => {
            proof {
                assert(cmark_of(replay(ev, fin.actions)) == Ok::<Seq<char>, Seq<char>>(
                    text@,
                ));
            }
            chapter.content = text;
            Ok(())
        },
        Err(m) => {
            proof {
                assert(cmark_of(replay(ev, fin.actions)) == Err::<Seq<char>, Seq<char>>(
                    m@,
                ));
            }
            Err(PreprocessError::new(m))
        },
    }
}

} // verus!
