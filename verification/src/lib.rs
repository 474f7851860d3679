//! Cross-reference engine for protobuf documentation: turns fully-qualified
//! descriptor names into addressable symbol links, resolves abbreviated
//! queries embedded in prose, and maintains the bidirectional usage graph
//! between schema entities and documentation pages.

use vstd::prelude::*;

pub mod descriptor;
pub mod error;
pub mod graph;
pub mod links;
pub mod markdown;
pub mod primitive;
pub mod resolve;
pub mod strutil;
pub mod view;

use crate::descriptor::FileDescriptor;
use crate::error::PreprocessError;
use crate::graph::SymbolUsages;
use crate::markdown::{rewrite_pages_spec, Page};
use crate::strutil::string_views;
use crate::view::{
    file_built_ok, file_wf, files_graph, namespace_attached, namespace_urled,
    ProtoFileDescriptorTemplate, ProtoNamespaceTemplate,
};

verus! {

/// Name under which the preprocessor is registered with the host.
pub const PREPROCESSOR_NAME: &'static str = "protobuf";

pub struct ProtobufPreprocessor;

impl ProtobufPreprocessor {
    pub fn new() -> ProtobufPreprocessor {
        ProtobufPreprocessor
    }

    /// The registered name of this preprocessor.
    pub fn name(&self) -> (r: &'static str)
        ensures
            r@ == PREPROCESSOR_NAME@,
    {
        PREPROCESSOR_NAME
    }

    /// Every renderer is supported except the literal name "not-supported".
    pub fn supports_renderer(&self, renderer: &str) -> (r: bool)
        ensures
            r == (renderer@ != "not-supported"@),
    {
        !crate::strutil::str_eq(renderer, "not-supported")
    }
}

/// The preprocessor's configuration, as plain values: the page to nest the
/// generated reference under, where the compiled descriptor set sits, and
/// the optional root url that `[src]` links point into.
#[derive(Debug)]
pub struct ProtobufPreprocessorArgs {
    pub nest_under: Option<String>,
    pub file_descriptor_path: String,
    pub proto_url_root: Option<String>,
}

impl ProtobufPreprocessorArgs {
    pub fn new(
        nest_under: Option<String>,
        file_descriptor_path: String,
        proto_url_root: Option<String>,
    ) -> (r: ProtobufPreprocessorArgs)
        ensures
            r.nest_under == nest_under,
            r.file_descriptor_path == file_descriptor_path,
            r.proto_url_root == proto_url_root,
    {
        ProtobufPreprocessorArgs { nest_under, file_descriptor_path, proto_url_root }
    }
}

/// The owning packages of a list of descriptor files.
pub open spec fn packages_of(files: Seq<FileDescriptor>) -> Seq<Seq<char>> {
    files.map_values(|f: FileDescriptor| f.package@)
}

/// The views of a list of pages.
pub open spec fn pages_views(pages: Seq<Page>) -> Seq<crate::markdown::PageView> {
    pages.map_values(|p: Page| p@)
}

/// First entry of the namespace list whose key is `key`, if any.
pub open spec fn find_namespace(
    doc: Seq<(String, ProtoNamespaceTemplate)>,
    key: Seq<char>,
) -> Option<int>
    decreases doc.len(),
{
    if doc.len() == 0 {
        None
    } else if doc[0].0@ == key {
        Some(0int)
    } else {
        match find_namespace(doc.drop_first(), key) {
            Some(i) => Some(i + 1),
            None => None,
        }
    }
}

proof fn lemma_find_namespace(doc: Seq<(String, ProtoNamespaceTemplate)>, key: Seq<char>)
    ensures
        match find_namespace(doc, key) {
            Some(i) => 0 <= i < doc.len() && doc[i].0@ == key && forall|j: int|
                0 <= j < i ==> doc[j].0@ != key,
            None => forall|j: int| 0 <= j < doc.len() ==> doc[j].0@ != key,
        },
    decreases doc.len(),
{
    if doc.len() == 0 {
    } else if doc[0].0@ == key {
    } else {
        lemma_find_namespace(doc.drop_first(), key);
        match find_namespace(doc.drop_first(), key) {
            Some(i) => {
                assert(doc.drop_first()[i] == doc[i + 1]);
                assert forall|j: int| 0 <= j < i + 1 implies doc[j].0@ != key by {
                    if j > 0 {
                        assert(doc.drop_first()[j - 1] == doc[j]);
                    }
                }
            },
            None => {
                assert forall|j: int| 0 <= j < doc.len() implies doc[j].0@ != key by {
                    if j > 0 {
                        assert(doc.drop_first()[j - 1] == doc[j]);
                    }
                }
            },
        }
    }
}

proof fn lemma_find_namespace_unique(
    doc: Seq<(String, ProtoNamespaceTemplate)>,
    key: Seq<char>,
    i: int,
)
    requires
        0 <= i < doc.len(),
        doc[i].0@ == key,
        forall|j: int| 0 <= j < i ==> doc[j].0@ != key,
    ensures
        find_namespace(doc, key) == Some(i),
{
    lemma_find_namespace(doc, key);
    match find_namespace(doc, key) {
        Some(m) => {
            if m < i {
                assert(doc[m].0@ != key);
            } else if m > i {
                assert(doc[i].0@ != key);
            }
        },
        None => {
            assert(doc[i].0@ != key);
        },
    }
}

proof fn lemma_find_namespace_present(
    doc: Seq<(String, ProtoNamespaceTemplate)>,
    key: Seq<char>,
    i: int,
)
    requires
        0 <= i < doc.len(),
        doc[i].0@ == key,
    ensures
        find_namespace(doc, key) is Some,
{
    lemma_find_namespace(doc, key);
    if find_namespace(doc, key) is None {
        assert(doc[i].0@ != key);
    }
}

fn find_namespace_idx(
    doc: &Vec<(String, ProtoNamespaceTemplate)>,
    key: &String,
) -> (r: Option<usize>)
    ensures
        match r {
            Some(i) => find_namespace(doc@, key@) == Some(i as int),
            None => find_namespace(doc@, key@) is None,
        },
{
    let n = doc.len();
    let mut i: usize = 0;
    while i < n
        invariant
            n == doc@.len(),
            0 <= i <= n,
            forall|j: int| 0 <= j < i ==> doc@[j].0@ != key@,
        decreases n - i,
    {
        if crate::strutil::str_eq(doc[i].0.as_str(), key.as_str()) {
            proof {
                lemma_find_namespace_unique(doc@, key@, i as int);
            }
            return Some(i);
        }
        i = i + 1;
    }
    proof {
        lemma_find_namespace(doc@, key@);
        if let Some(k) = find_namespace(doc@, key@) {
            assert(doc@[k].0@ != key@);
        }
    }
    None
}

/// The files of one package, in declaration order.
pub open spec fn files_of_package(
    files: Seq<FileDescriptor>,
    key: Seq<char>,
) -> Seq<FileDescriptor>
    decreases files.len(),
{
    if files.len() == 0 {
        files
    } else {
        let rest = files_of_package(files.drop_last(), key);
        if files.last().package@ == key {
            rest.push(files.last())
        } else {
            rest
        }
    }
}

proof fn lemma_files_of_package_step(files: Seq<FileDescriptor>, i: int, key: Seq<char>)
    requires
        0 <= i < files.len(),
    ensures
        files_of_package(files.take(i + 1), key) == if files[i].package@ == key {
            files_of_package(files.take(i), key).push(files[i])
        } else {
            files_of_package(files.take(i), key)
        },
{
    assert(files.take(i + 1).drop_last() =~= files.take(i));
    assert(files.take(i + 1).last() == files[i]);
}

proof fn lemma_files_of_package_empty(files: Seq<FileDescriptor>, key: Seq<char>)
    requires
        forall|j: int| 0 <= j < files.len() ==> (#[trigger] files[j]).package@ != key,
    ensures
        files_of_package(files, key).len() == 0,
    decreases files.len(),
{
    if files.len() > 0 {
        lemma_files_of_package_empty(files.drop_last(), key);
        assert(forall|j: int|
            0 <= j < files.len() - 1 ==> files.drop_last()[j] == files[j]);
    }
}

/// The namespace list groups the rendered files by owning package: one entry
/// per distinct package, keys in ascending lexicographic order, each holding
/// the renderings of exactly its package's files in declaration order.
pub open spec fn namespaces_grouped(
    doc: Seq<(String, ProtoNamespaceTemplate)>,
    files: Seq<FileDescriptor>,
    pkgs: Seq<Seq<char>>,
) -> bool {
    &&& forall|i: int, j: int| 0 <= i < j < doc.len() ==> (#[trigger] doc[i]).0@ != (
    #[trigger] doc[j]).0@
    &&& forall|i: int, j: int|
        0 <= i < j < doc.len() ==> crate::strutil::lex_lt(
            (#[trigger] doc[i]).0@,
            (#[trigger] doc[j]).0@,
        )
    &&& forall|k: int|
        0 <= k < doc.len() ==> {
            let own = files_of_package(files, (#[trigger] doc[k]).0@);
            &&& doc[k].1.files@.len() == own.len()
            &&& forall|x: int|
                0 <= x < own.len() ==> file_built_ok(
                    #[trigger] doc[k].1.files@[x],
                    own[x],
                    pkgs,
                )
        }
    &&& forall|fi: int|
        0 <= fi < files.len() ==> find_namespace(doc, (#[trigger] files[fi]).package@)
            is Some
}

/// How a successful run's result relates to its input: the descriptor files
/// are grouped and rendered into `built`; the attachment pass turns `built`
/// into `mid` under the final graph `g`; the source-url pass (when a root is
/// configured) turns `mid` into the returned document.
pub open spec fn process_stages(
    built: Seq<(String, ProtoNamespaceTemplate)>,
    mid: Seq<(String, ProtoNamespaceTemplate)>,
    g: Seq<crate::graph::UsageEntryView>,
    doc: Seq<(String, ProtoNamespaceTemplate)>,
    files: Seq<FileDescriptor>,
    proto_url_root: Option<String>,
) -> bool {
    &&& namespaces_grouped(built, files, packages_of(files))
    &&& mid.len() == built.len()
    &&& forall|k: int|
        0 <= k < built.len() ==> (#[trigger] mid[k]).0 == built[k].0 && namespace_attached(
            built[k].1,
            mid[k].1,
            g,
        )
    &&& match proto_url_root {
        None => doc == mid,
        Some(u) => doc.len() == mid.len() && forall|k: int|
            0 <= k < mid.len() ==> (#[trigger] doc[k]).0 == mid[k].0 && namespace_urled(
                mid[k].1,
                doc[k].1,
                u@,
            ),
    }
}

impl ProtobufPreprocessor {
    /// One full run over one input: index every descriptor file into the
    /// namespace map (keyed by package, in ascending package order) and the
    /// shared cross-reference graph, rewrite every page's embedded
    /// references against the graph's known symbols, attach the accumulated
    /// backlinks to every entity, and stamp the configured source url.  The
    /// run succeeds exactly when every file is well formed and every page
    /// rewrites cleanly; the first failing file or page aborts the rest.
    pub fn process(
        &self,
        files: &Vec<FileDescriptor>,
        pages: &mut Vec<Page>,
        proto_url_root: &Option<String>,
    ) -> (r: Result<Vec<(String, ProtoNamespaceTemplate)>, PreprocessError>)
        ensures
            final(pages)@.len() == old(pages)@.len(),
            forall|j: int|
                0 <= j < old(pages)@.len() ==> (#[trigger] final(pages)@[j])@.name == old(
                    pages,
                )@[j]@.name && final(pages)@[j]@.path == old(pages)@[j]@.path,
            ({
                let po = rewrite_pages_spec(
                    pages_views(old(pages)@),
                    files_graph(files@, packages_of(files@)),
                );
                &&& (r is Ok) == ((forall|fi: int|
                    0 <= fi < files@.len() ==> file_wf(#[trigger] files@[fi]))
                    && po.err is None)
                &&& r is Ok ==> forall|j: int|
                    0 <= j < old(pages)@.len()
                        ==> (#[trigger] final(pages)@[j])@.content == po.contents[j]
            }),
            r is Ok ==> exists|
                built: Seq<(String, ProtoNamespaceTemplate)>,
                mid: Seq<(String, ProtoNamespaceTemplate)>,
            | #[trigger] process_stages(
                built,
                mid,
                rewrite_pages_spec(
                    pages_views(old(pages)@),
                    files_graph(files@, packages_of(files@)),
                ).graph,
                r->Ok_0@,
                files@,
                *proto_url_root,
            ),
    {
        let ghost fv = files@;
        let ghost pkgs = packages_of(files@);
        let ghost p0v = pages@.map_values(|p: Page| p@);
        let ghost whole = rewrite_pages_spec(p0v, files_graph(fv, pkgs));

        let mut packages: Vec<String> = Vec::new();
        let fn_ = files.len();
        let mut fi: usize = 0;
        proof {
            assert(packages@.map_values(|s: String| s@) =~= packages_of(fv.take(0)));
        }
        while fi < fn_
            invariant
                fv == files@,
                fn_ == fv.len(),
                0 <= fi <= fn_,
                packages@.len() == fi,
                packages@.map_values(|s: String| s@) == packages_of(fv.take(fi as int)),
            decreases fn_ - fi,
        {
            let ghost prepk = packages@;
            packages.push(files[fi].package.clone());
            proof {
                let lhs = packages@.map_values(|s: String| s@);
                let rhs = packages_of(fv.take(fi + 1));
                assert(prepk.map_values(|s: String| s@).len() == prepk.len());
                assert(lhs.len() == fi + 1);
                assert(rhs.len() == fi + 1);
                assert forall|k: int| 0 <= k < fi + 1 implies lhs[k] == rhs[k] by {
                    assert(lhs[k] == packages@[k]@);
                    assert(rhs[k] == fv.take(fi + 1)[k].package@);
                    assert(fv.take(fi + 1)[k] == fv[k]);
                    if k < fi {
                        assert(packages@[k] == prepk[k]);
                        assert(prepk.map_values(|s: String| s@)[k] == prepk[k]@);
                        assert(packages_of(fv.take(fi as int))[k] == fv.take(
                            fi as int,
                        )[k].package@);
                        assert(fv.take(fi as int)[k] == fv[k]);
                    }
                }
                assert(lhs =~= rhs);
            }
            fi = fi + 1;
        }
        proof {
            assert(fv.take(fn_ as int) =~= fv);
            assert(string_views(packages@) == pkgs);
        }

        let mut symbol_usages = SymbolUsages::new();
        let mut namespaces: Vec<(String, ProtoNamespaceTemplate)> = Vec::new();
        let mut fi2: usize = 0;
        proof {
            assert(fv.take(0) =~= Seq::<FileDescriptor>::empty());
            assert(symbol_usages@ =~= files_graph(fv.take(0), pkgs));
        }
        while fi2 < fn_
            invariant
                fv == files@,
                fn_ == fv.len(),
                pkgs == packages_of(fv),
                string_views(packages@) == pkgs,
                0 <= fi2 <= fn_,
                pages@ == old(pages)@,
                symbol_usages@ == files_graph(fv.take(fi2 as int), pkgs),
                forall|f3: int| 0 <= f3 < fi2 ==> file_wf(#[trigger] fv[f3]),
                namespaces_grouped(namespaces@, fv.take(fi2 as int), pkgs),
            decreases fn_ - fi2,
        {
            let t = match ProtoFileDescriptorTemplate::from_descriptor(
                &files[fi2],
                &packages,
                &mut symbol_usages,
            ) {
                Ok(t) => t,
                Err(e) => {
                    proof {
                        assert(!file_wf(fv[fi2 as int]));
                        if forall|fi3: int|
                            0 <= fi3 < files@.len() ==> file_wf(#[trigger] files@[fi3]) {
                            assert(file_wf(fv[fi2 as int]));
                        }
                        assert forall|j: int|
                            0 <= j < old(pages)@.len() implies (#[trigger] pages@[j])@.name
                            == old(pages)@[j]@.name && pages@[j]@.path == old(
                            pages,
                        )@[j]@.path by {
                            assert(pages@[j] == old(pages)@[j]);
                        }
                    }
                    return Err(e);
                },
            };
            proof {
                assert(fv.take(fi2 + 1).drop_last() =~= fv.take(fi2 as int));
                assert(fv.take(fi2 + 1).last() == fv[fi2 as int]);
            }
            let ghost pre = namespaces@;
            let key = &files[fi2].package;
            match find_namespace_idx(&namespaces, key) {
                Some(k) => {
                    proof {
                        lemma_find_namespace(pre, key@);
                    }
                    let (kname, mut ns) = namespaces.remove(k);
                    ns.add_file(t);
                    namespaces.insert(k, (kname, ns));
                    proof {
                        assert(namespaces@ =~= pre.update(
                            k as int,
                            (pre[k as int].0, namespaces@[k as int].1),
                        ));
                        lemma_grouping_extend_existing(
                            pre,
                            namespaces@,
                            fv,
                            fi2 as int,
                            pkgs,
                            k as int,
                        );
                    }
                },
                None => {
                    proof {
                        lemma_find_namespace(pre, key@);
                    }
                    let mut ns: ProtoNamespaceTemplate = Default::default();
                    ns.add_file(t);
                    let mut pos: usize = 0;
                    while pos < namespaces.len() && !crate::strutil::lex_lt_str(
                        key.as_str(),
                        namespaces[pos].0.as_str(),
                    )
                        invariant
                            namespaces@ == pre,
                            0 <= pos <= namespaces@.len(),
                            forall|j: int|
                                0 <= j < pos ==> !crate::strutil::lex_lt(
                                    key@,
                                    (#[trigger] pre[j]).0@,
                                ),
                        decreases namespaces@.len() - pos,
                    {
                        pos = pos + 1;
                    }
                    let entry = (key.clone(), ns);
                    let ghost eg = entry;
                    namespaces.insert(pos, entry);
                    proof {
                        pre.insert_ensures(pos as int, eg);
                        assert(namespaces@[pos as int] == eg);
                        assert forall|j: int|
                            pos < j < namespaces@.len() implies #[trigger] namespaces@[j]
                            == pre[j - 1] by {
                            assert(pre.insert(pos as int, eg)[(j - 1) + 1] == pre[j - 1]);
                        }
                        lemma_grouping_extend_new(
                            pre,
                            namespaces@,
                            fv,
                            fi2 as int,
                            pkgs,
                            pos as int,
                        );
                    }
                },
            }
            fi2 = fi2 + 1;
        }
        proof {
            assert(fv.take(fn_ as int) =~= fv);
        }

        let ghost g1 = symbol_usages@;
        let ghost p0 = pages@;
        proof {
            assert(p0 == old(pages)@);
            assert(p0v == p0.map_values(|p: Page| p@));
            assert(g1 == files_graph(fv, pkgs));
            assert(whole == rewrite_pages_spec(p0v, g1));
            assert(p0v.skip(0) =~= p0v);
            assert(pages@.take(0).map_values(|p: Page| p@.content) =~= Seq::<
                Seq<char>,
            >::empty());
            assert(whole.contents =~= Seq::<Seq<char>>::empty() + whole.contents);
            assert forall|j: int| 0 <= j < p0.len() implies (#[trigger] pages@[j])@
                == p0v[j] by {
                assert(p0v[j] == p0[j]@);
            }
        }
        let pn = pages.len();
        let mut pi: usize = 0;
        while pi < pn
            invariant
                p0 == old(pages)@,
                p0v == p0.map_values(|p: Page| p@),
                fv == files@,
                pkgs == packages_of(fv),
                g1 == files_graph(fv, pkgs),
                whole == rewrite_pages_spec(p0v, g1),
                pn == pages@.len(),
                p0.len() == pn,
                p0v.len() == pn,
                0 <= pi <= pn,
                forall|j: int|
                    0 <= j < pn ==> (#[trigger] pages@[j])@.name == p0[j]@.name
                        && pages@[j]@.path == p0[j]@.path,
                forall|j: int| pi <= j < pn ==> (#[trigger] pages@[j])@ == p0v[j],
                whole.err == rewrite_pages_spec(p0v.skip(pi as int), symbol_usages@).err,
                whole.graph == rewrite_pages_spec(
                    p0v.skip(pi as int),
                    symbol_usages@,
                ).graph,
                whole.contents == pages@.take(pi as int).map_values(|p: Page| p@.content)
                    + rewrite_pages_spec(p0v.skip(pi as int), symbol_usages@).contents,
            decreases pn - pi,
        {
            let ghost pcur = pages@;
            let ghost gcur = symbol_usages@;
            let ghost rem = rewrite_pages_spec(p0v.skip(pi as int), gcur);
            let mut page = pages.remove(pi);
            let ghost page0 = page;
            let ghost ospec = crate::markdown::rewrite_page_spec(p0v[pi as int], gcur);
            proof {
                assert(page0 == pcur[pi as int]);
                assert(page0@ == p0v[pi as int]);
                assert(p0v.skip(pi as int).len() == p0v.len() - pi);
                assert(p0v.skip(pi as int)[0] == p0v[pi as int]);
                assert(p0v.skip(pi as int).drop_first() =~= p0v.skip(pi + 1));
            }
            match crate::markdown::link_proto_symbols(&mut page, &mut symbol_usages) {
                Ok(()) => {
                    let ghost pv = page;
                    pages.insert(pi, page);
                    proof {
                        assert(ospec.err is None);
                        assert(symbol_usages@ == ospec.graph);
                        assert(pv@.content == ospec.content);
                        let rest = rewrite_pages_spec(p0v.skip(pi + 1), ospec.graph);
                        assert(rem.err == rest.err);
                        assert(rem.graph == rest.graph);
                        assert(rem.contents == seq![ospec.content] + rest.contents);
                        assert forall|j: int|
                            0 <= j < pn implies (#[trigger] pages@[j])@.name == p0[j]@.name
                            && pages@[j]@.path == p0[j]@.path by {
                            if j < pi {
                                assert(pages@[j] == pcur[j]);
                            } else if j == pi {
                                assert(pages@[j] == pv);
                                assert(pv@.name == page0@.name);
                                assert(pv@.path == page0@.path);
                            } else {
                                assert(pages@[j] == pcur[j]);
                            }
                        }
                        assert forall|j: int|
                            pi + 1 <= j < pn implies (#[trigger] pages@[j])@ == p0v[j] by {
                            assert(pages@[j] == pcur[j]);
                        }
                        assert(pages@.take(pi + 1).map_values(|p: Page| p@.content)
                            =~= pcur.take(pi as int).map_values(|p: Page| p@.content).push(
                            ospec.content,
                        ));
                        assert(whole.contents =~= pages@.take(pi + 1).map_values(
                            |p: Page| p@.content,
                        ) + rest.contents);
                    }
                },
                Err(e) => {
                    let ghost pv = page;
                    pages.insert(pi, page);
                    proof {
                        assert(ospec.err == Some(e@));
                        assert(rem.err == Some(e@));
                        assert(whole.err == Some(e@));
                        assert forall|j: int|
                            0 <= j < pn implies (#[trigger] pages@[j])@.name == p0[j]@.name
                            && pages@[j]@.path == p0[j]@.path by {
                            if j < pi {
                                assert(pages@[j] == pcur[j]);
                            } else if j == pi {
                                assert(pages@[j] == pv);
                                assert(pv@.name == page0@.name);
                                assert(pv@.path == page0@.path);
                            } else {
                                assert(pages@[j] == pcur[j]);
                            }
                        }
                    }
                    return Err(e);
                },
            }
            pi = pi + 1;
        }
        proof {
            assert(p0v.skip(pn as int) =~= Seq::<crate::markdown::PageView>::empty());
            assert(whole.err is None);
            assert(whole.graph == symbol_usages@);
            assert(pages@.take(pn as int) =~= pages@);
            assert(whole.contents =~= pages@.map_values(|p: Page| p@.content) + Seq::<
                Seq<char>,
            >::empty());
            assert(whole.contents =~= pages@.map_values(|p: Page| p@.content));
        }

        let ghost built = namespaces@;
        let ghost gfin = symbol_usages@;
        crate::view::assign_backlinks(&mut namespaces, symbol_usages);
        let ghost mid = namespaces@;
        match proto_url_root {
            Some(source_url) => {
                crate::view::assign_source_url(&mut namespaces, source_url.clone());
            },
            None => {},
        }
        let result: Result<Vec<(String, ProtoNamespaceTemplate)>, PreprocessError> = Ok(
            namespaces,
        );
        proof {
            assert(namespaces_grouped(built, fv, pkgs));
            assert(gfin == whole.graph);
            assert(p0v == old(pages)@.map_values(|p: Page| p@));
            assert(p0v == pages_views(old(pages)@));
            assert(whole == rewrite_pages_spec(
                pages_views(old(pages)@),
                files_graph(files@, packages_of(files@)),
            ));
            assert forall|j: int|
                0 <= j < old(pages)@.len() implies (#[trigger] pages@[j])@.content
                == whole.contents[j] by {
                assert(pages@.map_values(|p: Page| p@.content)[j] == pages@[j]@.content);
            }
            assert(process_stages(
                built,
                mid,
                whole.graph,
                result->Ok_0@,
                files@,
                *proto_url_root,
            ));
        }
        result
    }
}

/// Adding one more file of an already-known package extends exactly that
/// namespace's file list.
proof fn lemma_grouping_extend_existing(
    pre: Seq<(String, ProtoNamespaceTemplate)>,
    post: Seq<(String, ProtoNamespaceTemplate)>,
    files: Seq<FileDescriptor>,
    fi: int,
    pkgs: Seq<Seq<char>>,
    k: int,
)
    requires
        0 <= fi < files.len(),
        namespaces_grouped(pre, files.take(fi), pkgs),
        find_namespace(pre, files[fi].package@) == Some(k),
        0 <= k < pre.len(),
        post.len() == pre.len(),
        forall|j: int| 0 <= j < pre.len() && j != k ==> post[j] == pre[j],
        post[k].0 == pre[k].0,
        post[k].1.files@ == pre[k].1.files@.push(post[k].1.files@.last()),
        post[k].1.files@.len() == pre[k].1.files@.len() + 1,
        file_built_ok(post[k].1.files@.last(), files[fi], pkgs),
    ensures
        namespaces_grouped(post, files.take(fi + 1), pkgs),
{
    lemma_find_namespace(pre, files[fi].package@);
    assert forall|i: int, j: int| 0 <= i < j < post.len() implies (#[trigger] post[i]).0@
        != (#[trigger] post[j]).0@ by {
        assert(post[i].0@ == pre[i].0@);
        assert(post[j].0@ == pre[j].0@);
    }
    assert forall|k2: int| 0 <= k2 < post.len() implies {
        let own = files_of_package(files.take(fi + 1), (#[trigger] post[k2]).0@);
        &&& post[k2].1.files@.len() == own.len()
        &&& forall|x: int|
            0 <= x < own.len() ==> file_built_ok(#[trigger] post[k2].1.files@[x], own[x], pkgs)
    } by {
        lemma_files_of_package_step(files, fi, post[k2].0@);
        assert(post[k2].0@ == pre[k2].0@);
        let own0 = files_of_package(files.take(fi), pre[k2].0@);
        let own1 = files_of_package(files.take(fi + 1), post[k2].0@);
        assert(pre[k2].1.files@.len() == own0.len());
        if k2 == k {
            assert(files[fi].package@ == post[k2].0@);
            assert(own1 == own0.push(files[fi]));
            assert forall|x: int| 0 <= x < own1.len() implies file_built_ok(
                #[trigger] post[k2].1.files@[x],
                own1[x],
                pkgs,
            ) by {
                if x < own0.len() {
                    assert(post[k2].1.files@[x] == pre[k2].1.files@[x]);
                    assert(own1[x] == own0[x]);
                } else {
                    assert(own1[x] == files[fi]);
                }
            }
        } else {
            assert(pre[k2].0@ != files[fi].package@);
            assert(own1 == own0);
            assert(post[k2] == pre[k2]);
        }
    }
    assert forall|f3: int| 0 <= f3 < fi + 1 implies find_namespace(
        post,
        (#[trigger] files.take(fi + 1)[f3]).package@,
    ) is Some by {
        assert(files.take(fi + 1)[f3] == files[f3]);
        if f3 < fi {
            assert(files.take(fi)[f3] == files[f3]);
            lemma_find_namespace(pre, files[f3].package@);
            if let Some(m) = find_namespace(pre, files[f3].package@) {
                assert forall|j: int| 0 <= j < m implies post[j].0@
                    != files[f3].package@ by {
                    assert(post[j] == pre[j] || j == k);
                    if j == k {
                        assert(post[j].0@ == pre[j].0@);
                    }
                }
                assert(post[m].0@ == pre[m].0@);
                lemma_find_namespace_unique(post, files[f3].package@, m);
            }
        } else {
            assert forall|j: int| 0 <= j < k implies post[j].0@ != files[fi].package@ by {
                assert(post[j].0@ == pre[j].0@);
            }
            assert(post[k].0@ == pre[k].0@);
            lemma_find_namespace_unique(post, files[fi].package@, k);
        }
    }
    assert forall|i: int, j: int| 0 <= i < j < post.len() implies crate::strutil::lex_lt(
        (#[trigger] post[i]).0@,
        (#[trigger] post[j]).0@,
    ) by {
        assert(post[i].0@ == pre[i].0@);
        assert(post[j].0@ == pre[j].0@);
    }
}

/// Adding the first file of a new package inserts one namespace for it, at
/// its position in the key order.
proof fn lemma_grouping_extend_new(
    pre: Seq<(String, ProtoNamespaceTemplate)>,
    post: Seq<(String, ProtoNamespaceTemplate)>,
    files: Seq<FileDescriptor>,
    fi: int,
    pkgs: Seq<Seq<char>>,
    pos: int,
)
    requires
        0 <= fi < files.len(),
        namespaces_grouped(pre, files.take(fi), pkgs),
        find_namespace(pre, files[fi].package@) is None,
        0 <= pos <= pre.len(),
        post.len() == pre.len() + 1,
        forall|j: int| 0 <= j < pos ==> post[j] == pre[j],
        forall|j: int| pos < j < post.len() ==> post[j] == pre[j - 1],
        post[pos].0@ == files[fi].package@,
        post[pos].1.files@.len() == 1,
        file_built_ok(post[pos].1.files@[0], files[fi], pkgs),
        forall|j: int|
            0 <= j < pos ==> !crate::strutil::lex_lt(
                files[fi].package@,
                (#[trigger] pre[j]).0@,
            ),
        pos < pre.len() ==> crate::strutil::lex_lt(files[fi].package@, pre[pos].0@),
    ensures
        namespaces_grouped(post, files.take(fi + 1), pkgs),
{
    lemma_find_namespace(pre, files[fi].package@);
    let key = files[fi].package@;

    // The new key sits strictly between its neighbours.
    assert forall|i: int, j: int| 0 <= i < j < post.len() implies crate::strutil::lex_lt(
        (#[trigger] post[i]).0@,
        (#[trigger] post[j]).0@,
    ) by {
        if i < pos && j < pos {
            assert(post[i] == pre[i]);
            assert(post[j] == pre[j]);
        } else if i < pos && j == pos {
            assert(post[i] == pre[i]);
            assert(pre[i].0@ != key);
            crate::strutil::lemma_lex_lt_total(key, pre[i].0@);
        } else if i == pos && j > pos {
            assert(post[j] == pre[j - 1]);
            if j - 1 == pos {
                assert(crate::strutil::lex_lt(key, pre[pos].0@));
            } else {
                assert(crate::strutil::lex_lt(pre[pos].0@, pre[j - 1].0@));
                crate::strutil::lemma_lex_lt_trans(key, pre[pos].0@, pre[j - 1].0@);
            }
        } else if i < pos && j > pos {
            assert(post[i] == pre[i]);
            assert(post[j] == pre[j - 1]);
            assert(i < j - 1 || i == j - 1);
            if i == j - 1 {
                assert(pre[i].0@ != key);
                crate::strutil::lemma_lex_lt_total(key, pre[i].0@);
                crate::strutil::lemma_lex_lt_trans(pre[i].0@, key, pre[pos].0@);
            }
        } else {
            assert(post[i] == pre[i - 1]);
            assert(post[j] == pre[j - 1]);
        }
    }
    assert forall|i: int, j: int| 0 <= i < j < post.len() implies (#[trigger] post[i]).0@
        != (#[trigger] post[j]).0@ by {
        assert(crate::strutil::lex_lt(post[i].0@, post[j].0@));
        if post[i].0@ == post[j].0@ {
            crate::strutil::lemma_lex_lt_irrefl(post[i].0@);
        }
    }
    assert forall|k2: int| 0 <= k2 < post.len() implies {
        let own = files_of_package(files.take(fi + 1), (#[trigger] post[k2]).0@);
        &&& post[k2].1.files@.len() == own.len()
        &&& forall|x: int|
            0 <= x < own.len() ==> file_built_ok(#[trigger] post[k2].1.files@[x], own[x], pkgs)
    } by {
        lemma_files_of_package_step(files, fi, post[k2].0@);
        let own0 = files_of_package(files.take(fi), post[k2].0@);
        let own1 = files_of_package(files.take(fi + 1), post[k2].0@);
        if k2 != pos {
            let k2pre: int = if k2 < pos {
                k2
            } else {
                k2 - 1
            };
            assert(post[k2] == pre[k2pre]);
            assert(pre[k2pre].0@ != key);
            assert(own1 == own0);
        } else {
            assert(post[k2].0@ == key);
            assert forall|j2: int| 0 <= j2 < files.take(fi).len() implies (
            #[trigger] files.take(fi)[j2]).package@ != post[k2].0@ by {
                assert(files.take(fi)[j2] == files[j2]);
                if files[j2].package@ == key {
                    lemma_find_namespace(pre, files[j2].package@);
                }
            }
            lemma_files_of_package_empty(files.take(fi), post[k2].0@);
            assert(own1 == own0.push(files[fi]));
            assert(own1.len() == 1);
            assert(own1[0] == files[fi]);
        }
    }
    assert forall|f3: int| 0 <= f3 < fi + 1 implies find_namespace(
        post,
        (#[trigger] files.take(fi + 1)[f3]).package@,
    ) is Some by {
        assert(files.take(fi + 1)[f3] == files[f3]);
        if f3 < fi {
            assert(files.take(fi)[f3] == files[f3]);
            lemma_find_namespace(pre, files[f3].package@);
            if let Some(m) = find_namespace(pre, files[f3].package@) {
                if m < pos {
                    assert(post[m] == pre[m]);
                    lemma_find_namespace_present(post, files[f3].package@, m);
                } else {
                    assert(post[m + 1] == pre[m]);
                    lemma_find_namespace_present(post, files[f3].package@, m + 1);
                }
            }
        } else {
            lemma_find_namespace_present(post, key, pos);
        }
    }
}

} // verus!
