//! Symbol identity model: the fully-qualified symbol link (FQSL), the usage
//! edges recorded against it, and the suffix-match predicate that query
//! resolution is built on.

use vstd::prelude::*;
use crate::strutil::{
    best_package_spec, find_sub, occurs_at, replace_char, replace_char_seq, rfind_char,
    rfind_char_spec, split_char, split_str, str_eq, string_views,
};
use crate::strutil;

verus! {

/// The property separator `::` as a sequence of characters.
pub open spec fn prop_sep() -> Seq<char> {
    seq![':', ':']
}

/// Mathematical model of a `SymbolLink`.
pub ghost struct SymbolLinkView {
    pub symbol: Seq<char>,
    pub path: Seq<char>,
    pub property: Option<Seq<char>>,
    pub label_override: Option<Seq<char>>,
    pub own_id: Option<Seq<char>>,
}

pub open spec fn opt_view(o: Option<String>) -> Option<Seq<char>> {
    match o {
        Some(s) => Some(s@),
        None => None,
    }
}

/// The immutable address of one documentation-visible entity: the owning
/// package reduced to a routing path, the (possibly dotted) local symbol, an
/// optional member property, and two display-only fields.
///
/// Two identities address the same entity exactly when `path`, `symbol` and
/// `property` agree; `label_override` and `own_id` are display-only.
#[derive(Clone, Debug, PartialEq, Eq, Hash)]
pub struct SymbolLink {
    pub symbol: String,
    pub path: String,
    pub property: Option<String>,
    pub label_override: Option<String>,
    pub own_id: Option<String>,
}

impl View for SymbolLink {
    type V = SymbolLinkView;

    open spec fn view(&self) -> SymbolLinkView {
        SymbolLinkView {
            symbol: self.symbol@,
            path: self.path@,
            property: opt_view(self.property),
            label_override: opt_view(self.label_override),
            own_id: opt_view(self.own_id),
        }
    }
}

/// The anchor id: the symbol, extended with `::property` when a property is
/// set.
pub open spec fn id_of(l: SymbolLinkView) -> Seq<char> {
    match l.property {
        Some(p) => l.symbol + prop_sep() + p,
        None => l.symbol,
    }
}

/// The canonical dotted name: a leading dot, the path with `/` turned back
/// into `.`, a dot, then the id.
pub open spec fn fqsl_of(l: SymbolLinkView) -> Seq<char> {
    seq!['.'] + replace_char_seq(l.path, '/', '.') + seq!['.'] + id_of(l)
}

/// The display label: the override when set, otherwise everything after the
/// last dot of the canonical name.
pub open spec fn label_of(l: SymbolLinkView) -> Seq<char> {
    match l.label_override {
        Some(lbl) => lbl,
        None => {
            let f = fqsl_of(l);
            match rfind_char_spec(f, '.') {
                Some(i) => f.skip(i + 1),
                None => f,
            }
        },
    }
}

/// The documentation href of the symbol: `/proto/<path>.md#<id>`.
pub open spec fn href_of(l: SymbolLinkView) -> Seq<char> {
    "/proto/"@ + l.path + ".md#"@ + id_of(l)
}

/// The raw name cut at the first `::`: everything before it, and, when the
/// separator occurs, everything after it as the property.
pub open spec fn split_property_spec(fqsl: Seq<char>) -> (Seq<char>, Option<Seq<char>>) {
    match find_sub(fqsl, prop_sep()) {
        Some(i) => (fqsl.take(i), Some(fqsl.skip(i + 2))),
        None => (fqsl, None),
    }
}

/// What `from_fqsl` produces: the longest known package that is a prefix of
/// the name after its leading separator becomes the routing path; the
/// remainder becomes the local symbol.
pub open spec fn from_fqsl_spec(fqsl: Seq<char>, pkgs: Seq<Seq<char>>) -> SymbolLinkView {
    let (base, prop) = split_property_spec(fqsl);
    let f1 = base.skip(1);
    match best_package_spec(f1, pkgs) {
        Some(b) => SymbolLinkView {
            symbol: if (b + seq!['.']).is_prefix_of(f1) {
                f1.skip(b.len() + 1int)
            } else {
                f1
            },
            path: replace_char_seq(b, '.', '/'),
            property: prop,
            label_override: None,
            own_id: None,
        },
        None => SymbolLinkView {
            symbol: if (seq!['.']).is_prefix_of(f1) {
                f1.skip(1)
            } else {
                f1
            },
            path: Seq::empty(),
            property: prop,
            label_override: None,
            own_id: None,
        },
    }
}

/// The raw fully-qualified name of a declared entity: a leading dot, the
/// owning package, a dot, and the dotted chain of names from the outermost
/// declaration down to the entity.
pub open spec fn entity_fqsl(package: Seq<char>, names: Seq<Seq<char>>) -> Seq<char> {
    seq!['.'] + package + seq!['.'] + crate::strutil::join_with(names, seq!['.'])
}

/// A raw name that `from_fqsl` accepts: non-empty, and not opening with the
/// property separator (which would leave no name before it).
pub open spec fn fqsl_ok(s: Seq<char>) -> bool {
    s.len() >= 1 && split_property_spec(s).0.len() >= 1
}

/// A name that starts with the leading dot separator is always acceptable.
pub proof fn lemma_fqsl_ok_of_dotted(s: Seq<char>)
    requires
        s.len() >= 1,
        s[0] == '.',
    ensures
        fqsl_ok(s),
{
    strutil::lemma_find_sub(s, prop_sep());
    match find_sub(s, prop_sep()) {
        Some(i) => {
            if i == 0 {
                assert(prop_sep().is_prefix_of(s.skip(0)));
                assert(s.skip(0) == s);
                assert(s.subrange(0, 2)[0] == s[0]);
            }
        },
        None => {},
    }
}

/// A name is acceptable exactly when it is non-empty and does not open with
/// the property separator.
pub proof fn lemma_fqsl_ok_criterion(s: Seq<char>)
    ensures
        fqsl_ok(s) == (s.len() >= 1 && !prop_sep().is_prefix_of(s)),
{
    strutil::lemma_find_sub(s, prop_sep());
    if s.len() >= 1 {
        match find_sub(s, prop_sep()) {
            Some(i) => {
                assert(s.skip(0) == s);
                if i == 0 {
                    assert(prop_sep().is_prefix_of(s));
                } else {
                    assert(!prop_sep().is_prefix_of(s.skip(0)));
                }
            },
            None => {
                assert(s.skip(0) == s);
                assert(!prop_sep().is_prefix_of(s));
            },
        }
    }
}

/// The suffix-match rule of query resolution: the candidate's dotted segments
/// must end with the query's dotted segments.
pub open spec fn segment_suffix_match(f: Seq<char>, q: Seq<char>) -> bool {
    let fs = split_char(f, '.');
    let qs = split_char(q, '.');
    qs.len() <= fs.len() && fs.skip(fs.len() - qs.len()) == qs
}

/// Suffix matching is segment-based, not substring-based: a query without a
/// dot matches a candidate only when the candidate's entire last dotted
/// segment equals the query.
pub proof fn lemma_single_segment_match(f: Seq<char>, q: Seq<char>)
    requires
        segment_suffix_match(f, q),
        forall|i: int| 0 <= i < q.len() ==> q[i] != '.',
    ensures
        split_char(f, '.').last() == q,
{
    strutil::lemma_find_sub(q, seq!['.']);
    if let Some(k) = find_sub(q, seq!['.']) {
        assert(seq!['.'].is_prefix_of(q.skip(k)));
        assert(q.skip(k).subrange(0, 1)[0] == q.skip(k)[0]);
        assert(q[k] == '.');
    }
    strutil::lemma_split_char_cut(q, '.');
    assert(split_char(q, '.') == seq![q]);
    let fs = split_char(f, '.');
    strutil::lemma_split_char_len(f, '.');
    assert(fs.skip(fs.len() - 1) =~= seq![fs.last()]);
    assert(fs.skip(fs.len() - 1) == seq![q]);
    assert(seq![fs.last()][0] == fs.last());
}

impl SymbolLink {
    /// Split a raw fully-qualified name into routing path, local symbol and
    /// optional property, using the longest known package prefix.
    pub fn from_fqsl(fqsl: String, packages: &Vec<String>) -> (r: SymbolLink)
        requires
            fqsl@.len() >= 1,
            split_property_spec(fqsl@).0.len() >= 1,
        ensures
            r@ == from_fqsl_spec(fqsl@, string_views(packages@)),
    {
        let (base, property) = Self::split_property(fqsl.as_str());
        let best = Self::find_best_match(base.as_str(), packages);
        proof {
            reveal_strlit(".");
            reveal_strlit("/");
            assert("."@ =~= seq!['.']);
            assert("/"@ =~= seq!['/']);
        }
        let base_len = base.as_str().unicode_len();
        let f1 = base.as_str().substring_char(1, base_len);
        match best {
            Some(b) => {
                let path = replace_char(b.as_str(), '.', "/");
                let b_len = b.as_str().unicode_len();
                let mut pref = b.clone();
                pref.append(".");
                let symbol: String;
                if occurs_at(f1, pref.as_str(), 0) {
                    proof {
                        assert(f1@.skip(0) == f1@);
                        assert(pref@ == b@ + seq!['.']);
                    }
                    let f1_len = f1.unicode_len();
                    symbol = f1.substring_char(b_len + 1, f1_len).to_owned();
                } else {
                    proof {
                        assert(f1@.skip(0) == f1@);
                    }
                    symbol = f1.to_owned();
                }
                SymbolLink {
                    symbol,
                    path,
                    property,
                    label_override: None,
                    own_id: None,
                }
            },
            None => {
                let symbol: String;
                if occurs_at(f1, ".", 0) {
                    proof {
                        assert(f1@.skip(0) == f1@);
                    }
                    let f1_len = f1.unicode_len();
                    symbol = f1.substring_char(1, f1_len).to_owned();
                } else {
                    proof {
                        assert(f1@.skip(0) == f1@);
                    }
                    symbol = f1.to_owned();
                }
                SymbolLink {
                    symbol,
                    path: String::new(),
                    property,
                    label_override: None,
                    own_id: None,
                }
            },
        }
    }

    /// Cut a raw name at the first `::` into the name proper and the property.
    pub fn split_property(fqsl: &str) -> (r: (String, Option<String>))
        ensures
            r.0@ == split_property_spec(fqsl@).0,
            opt_view(r.1) == split_property_spec(fqsl@).1,
    {
        proof {
            reveal_strlit("::");
            assert("::"@ =~= prop_sep());
        }
        match strutil::find_sub_str(fqsl, "::") {
            Some(i) => {
                proof {
                    strutil::lemma_find_sub(fqsl@, prop_sep());
                }
                let n = fqsl.unicode_len();
                let left = fqsl.substring_char(0, i).to_owned();
                let right = fqsl.substring_char(i + 2, n).to_owned();
                proof {
                    assert(fqsl@.subrange(0, i as int) =~= fqsl@.take(i as int));
                    assert(fqsl@.subrange(i + 2, n as int) =~= fqsl@.skip(i + 2));
                }
                (left, Some(right))
            },
            None => (fqsl.to_owned(), None),
        }
    }

    /// The longest known package that is a prefix of the name after its
    /// leading separator, if any.
    pub fn find_best_match<'a>(fqsl: &str, packages: &'a Vec<String>) -> (r: Option<
        &'a String,
    >)
        requires
            fqsl@.len() >= 1,
        ensures
            match r {
                Some(p) => best_package_spec(fqsl@.skip(1), string_views(packages@)) == Some(
                    p@,
                ),
                None => best_package_spec(fqsl@.skip(1), string_views(packages@)) is None,
            },
    {
        let ghost f1 = fqsl@.skip(1);
        let ghost views = string_views(packages@);
        let mut best: Option<usize> = None;
        let n = packages.len();
        let mut i: usize = 0;
        proof {
            assert(views.take(0) =~= Seq::<Seq<char>>::empty());
        }
        while i < n
            invariant
                fqsl@.len() >= 1,
                f1 == fqsl@.skip(1),
                views == string_views(packages@),
                n == packages@.len(),
                0 <= i <= n,
                match best {
                    Some(bi) => bi < i && best_package_spec(f1, views.take(i as int)) == Some(
                        packages@[bi as int]@,
                    ),
                    None => best_package_spec(f1, views.take(i as int)) is None,
                },
            decreases n - i,
        {
            let p = &packages[i];
            let is_pref = occurs_at(fqsl, p.as_str(), 1);
            let take_it: bool;
            match best {
                Some(bi) => {
                    take_it = is_pref && packages[bi].as_str().unicode_len()
                        <= p.as_str().unicode_len();
                },
                None => {
                    take_it = is_pref;
                },
            }
            proof {
                assert(views.take(i + 1).drop_last() =~= views.take(i as int));
                assert(views.take(i + 1).last() == packages@[i as int]@);
            }
            if take_it {
                best = Some(i);
            }
            i = i + 1;
        }
        proof {
            assert(views.take(n as int) =~= views);
        }
        match best {
            Some(bi) => Some(&packages[bi]),
            None => None,
        }
    }

    /// Record the member property this identity addresses.
    pub fn set_property(&mut self, property: String)
        ensures
            final(self)@ == (SymbolLinkView { property: Some(property@), ..old(self)@ }),
    {
        self.property = Some(property)
    }

    /// The anchor id: `symbol` or `symbol::property`.
    pub fn id(&self) -> (r: String)
        ensures
            r@ == id_of(self@),
    {
        proof {
            reveal_strlit("::");
            assert("::"@ =~= prop_sep());
        }
        match &self.property {
            Some(property) => {
                let mut r = self.symbol.clone();
                r.append("::");
                r.append(property.as_str());
                r
            },
            None => self.symbol.clone(),
        }
    }

    /// The canonical dotted name, with a leading separator.
    pub fn fqsl(&self) -> (r: String)
        ensures
            r@ == fqsl_of(self@),
    {
        proof {
            reveal_strlit(".");
            assert("."@ =~= seq!['.']);
        }
        let mut r = String::new();
        r.append(".");
        r.append(replace_char(self.path.as_str(), '/', ".").as_str());
        r.append(".");
        r.append(self.id().as_str());
        r
    }

    /// The display label: the override when set, else the last dotted segment
    /// of the canonical name.
    pub fn label(&self) -> (r: String)
        ensures
            r@ == label_of(self@),
    {
        match &self.label_override {
            Some(label) => label.clone(),
            None => {
                let f = self.fqsl();
                match rfind_char(f.as_str(), '.') {
                    Some(i) => {
                        let n = f.as_str().unicode_len();
                        proof {
                            strutil::lemma_rfind_char(f@, '.');
                        }
                        f.as_str().substring_char(i + 1, n).to_owned()
                    },
                    None => f,
                }
            },
        }
    }

    /// Override the display label.
    pub fn set_label(&mut self, label: String)
        ensures
            final(self)@ == (SymbolLinkView { label_override: Some(label@), ..old(self)@ }),
    {
        self.label_override = Some(label)
    }

    /// The documentation href this identity links to.
    pub fn href(&self) -> (r: String)
        ensures
            r@ == href_of(self@),
    {
        let mut r = String::new();
        r.append("/proto/");
        r.append(self.path.as_str());
        r.append(".md#");
        r.append(self.id().as_str());
        r
    }

    /// Record the per-citation anchor id assigned by a page.
    pub fn set_own_id(&mut self, id: String)
        ensures
            final(self)@ == (SymbolLinkView { own_id: Some(id@), ..old(self)@ }),
    {
        self.own_id = Some(id)
    }

    /// Does this identity's canonical name end, segment for segment, with the
    /// query?
    pub fn matches(&self, query: &str) -> (r: bool)
        ensures
            r == segment_suffix_match(fqsl_of(self@), query@),
    {
        let query_parts = split_str(query, '.');
        let f = self.fqsl();
        let fqsl_parts = split_str(f.as_str(), '.');
        let qn = query_parts.len();
        let fn_ = fqsl_parts.len();
        let ghost qs = split_char(query@, '.');
        let ghost fs = split_char(fqsl_of(self@), '.');
        if qn > fn_ {
            return false;
        }
        let off = fn_ - qn;
        let mut j: usize = 0;
        while j < qn
            invariant
                qs == split_char(query@, '.'),
                fs == split_char(fqsl_of(self@), '.'),
                query_parts@.map_values(|x: String| x@) == qs,
                fqsl_parts@.map_values(|x: String| x@) == fs,
                qn == qs.len(),
                fn_ == fs.len(),
                qn <= fn_,
                off == fn_ - qn,
                0 <= j <= qn,
                forall|k: int| 0 <= k < j ==> fs[off + k] == qs[k],
            decreases qn - j,
        {
            proof {
                assert(fqsl_parts@.map_values(|x: String| x@)[off + j] == fqsl_parts@[(off
                    + j) as int]@);
                assert(query_parts@.map_values(|x: String| x@)[j as int]
                    == query_parts@[j as int]@);
            }
            if !str_eq(fqsl_parts[off + j].as_str(), query_parts[j].as_str()) {
                proof {
                    assert(fs[off + j] != qs[j as int]);
                    if fs.skip(fs.len() - qs.len()) == qs {
                        assert(fs.skip(fs.len() - qs.len())[j as int] == fs[off + j]);
                    }
                }
                return false;
            }
            j = j + 1;
        }
        proof {
            assert(fs.skip(fs.len() - qs.len()) =~= qs);
        }
        true
    }

    /// A structural copy of this identity.
    pub fn duplicate(&self) -> (r: SymbolLink)
        ensures
            r == *self,
    {
        SymbolLink {
            symbol: self.symbol.clone(),
            path: self.path.clone(),
            property: match &self.property {
                Some(p) => Some(p.clone()),
                None => None,
            },
            label_override: match &self.label_override {
                Some(l) => Some(l.clone()),
                None => None,
            },
            own_id: match &self.own_id {
                Some(o) => Some(o.clone()),
                None => None,
            },
        }
    }

    /// Do two identities address the same entity?  Display-only fields are
    /// not compared.
    pub fn same_symbol(&self, other: &SymbolLink) -> (r: bool)
        ensures
            r == same_symbol_spec(self@, other@),
    {
        if !str_eq(self.symbol.as_str(), other.symbol.as_str()) {
            return false;
        }
        if !str_eq(self.path.as_str(), other.path.as_str()) {
            return false;
        }
        match (&self.property, &other.property) {
            (None, None) => true,
            (Some(a), Some(b)) => str_eq(a.as_str(), b.as_str()),
            _ => false,
        }
    }
}

/// The longest-prefix law: the routing path of a parsed name is derived from
/// the longest known package that is a prefix of the name after its leading
/// separator; when no package matches, the path is empty and the whole
/// remainder becomes the symbol.
pub proof fn lemma_from_fqsl_longest_prefix(fqsl: Seq<char>, pkgs: Seq<Seq<char>>)
    ensures
        ({
            let base = split_property_spec(fqsl).0;
            let f1 = base.skip(1);
            match best_package_spec(f1, pkgs) {
                Some(b) => pkgs.contains(b) && b.is_prefix_of(f1) && (forall|k: int|
                    0 <= k < pkgs.len() && (#[trigger] pkgs[k]).is_prefix_of(f1)
                        ==> pkgs[k].len() <= b.len()) && from_fqsl_spec(fqsl, pkgs).path
                    == replace_char_seq(b, '.', '/'),
                None => (forall|k: int|
                    0 <= k < pkgs.len() ==> !(#[trigger] pkgs[k]).is_prefix_of(f1))
                    && from_fqsl_spec(fqsl, pkgs).path == Seq::<char>::empty(),
            }
        }),
{
    let base = split_property_spec(fqsl).0;
    let f1 = base.skip(1);
    strutil::lemma_best_package_longest(f1, pkgs);
}

/// The property round-trip law: a raw name that carries a property behind
/// the separator parses into an identity whose property is exactly that
/// text, and whose anchor id reproduces `symbol::property`.
pub proof fn lemma_property_round_trip(
    fqsl: Seq<char>,
    pkgs: Seq<Seq<char>>,
    base: Seq<char>,
    prop: Seq<char>,
)
    requires
        fqsl == base + prop_sep() + prop,
        find_sub(fqsl, prop_sep()) == Some(base.len() as int),
        base.len() >= 1,
    ensures
        from_fqsl_spec(fqsl, pkgs).property == Some(prop),
        id_of(from_fqsl_spec(fqsl, pkgs)) == from_fqsl_spec(fqsl, pkgs).symbol + prop_sep()
            + prop,
{
    assert(fqsl.take(base.len() as int) =~= base);
    assert(fqsl.skip(base.len() + 2int) =~= prop);
}

/// Equality of addressed entities: `path`, `symbol` and `property` agree.
pub open spec fn same_symbol_spec(a: SymbolLinkView, b: SymbolLinkView) -> bool {
    a.symbol == b.symbol && a.path == b.path && a.property == b.property
}

/// Mathematical model of a `ContentLink`.
pub ghost struct ContentLinkView {
    pub path: Seq<char>,
    pub id: Seq<char>,
    pub label: Seq<char>,
}

/// A usage edge recorded from a documentation page: the page's routing path,
/// the citation anchor id, and a human label.
#[derive(Clone, Debug, PartialEq, Eq)]
pub struct ContentLink {
    pub path: String,
    pub id: String,
    pub label: String,
}

impl View for ContentLink {
    type V = ContentLinkView;

    open spec fn view(&self) -> ContentLinkView {
        ContentLinkView { path: self.path@, id: self.id@, label: self.label@ }
    }
}

/// The href of a content backlink: `/<page path>#<citation id>`.
pub open spec fn content_href_of(c: ContentLinkView) -> Seq<char> {
    "/"@ + c.path + "#"@ + c.id
}

impl ContentLink {
    /// Where this backlink points: the citation anchor on the page that made
    /// the reference.
    pub fn href(&self) -> (r: String)
        ensures
            r@ == content_href_of(self@),
    {
        let mut r = String::new();
        r.append("/");
        r.append(self.path.as_str());
        r.append("#");
        r.append(self.id.as_str());
        r
    }

    /// A structural copy of this backlink.
    pub fn duplicate(&self) -> (r: ContentLink)
        ensures
            r == *self,
    {
        ContentLink {
            path: self.path.clone(),
            id: self.id.clone(),
            label: self.label.clone(),
        }
    }
}

/// Mathematical model of a `Backlink`.
pub ghost enum BacklinkView {
    Content(ContentLinkView),
    Symbol(SymbolLinkView),
}

/// A recorded usage edge pointing at a target symbol: either another schema
/// symbol refers to it, or a documentation page does.
#[derive(Clone, Debug)]
pub enum Backlink {
    Content(ContentLink),
    Symbol(SymbolLink),
}

impl View for Backlink {
    type V = BacklinkView;

    open spec fn view(&self) -> BacklinkView {
        match self {
            Backlink::Content(c) => BacklinkView::Content(c@),
            Backlink::Symbol(s) => BacklinkView::Symbol(s@),
        }
    }
}

impl Backlink {
    /// A structural copy of this edge.
    pub fn duplicate(&self) -> (r: Backlink)
        ensures
            r@ == self@,
    {
        match self {
            Backlink::Content(c) => Backlink::Content(c.duplicate()),
            Backlink::Symbol(s) => Backlink::Symbol(s.duplicate()),
        }
    }
}

/// The accumulated backlinks attached to one entity for rendering.
#[derive(Debug)]
pub struct Backlinks {
    pub links: Vec<Backlink>,
}

impl Backlinks {
    pub fn new(links: Vec<Backlink>) -> (r: Backlinks)
        ensures
            r.links == links,
    {
        Backlinks { links }
    }
}

impl Default for Backlinks {
    /// An entity starts with no recorded backlinks.
    fn default() -> (r: Backlinks)
        ensures
            r.links@ =~= Seq::<Backlink>::empty(),
    {
        Backlinks { links: Vec::new() }
    }
}

} // verus!
