//! Query resolution: given an abbreviated name from prose and the set of
//! known symbols, find the unique suffix match, or build the exact
//! diagnostic text — a disambiguation list when several match, ranked
//! near-miss suggestions (or a sample of valid names) when none does.

use vstd::prelude::*;
use crate::error::PreprocessError;
use crate::links::{fqsl_of, segment_suffix_match, SymbolLink, SymbolLinkView};
use crate::strutil::{join_with, lemma_filter_one, lemma_filter_step};
use fuzzy_matcher::FuzzyMatcher;

verus! {

/// What the fuzzy matcher scores a candidate against a pattern; the score
/// depends on the two strings alone.
pub uninterp spec fn fuzzy_score(choice: Seq<char>, pattern: Seq<char>) -> Option<i64>;

/// Relies on fuzzy_matcher::skim::SkimMatcherV2::fuzzy_match with the
/// default configuration: a deterministic similarity score of the two
/// strings, `None` when they do not match at all.
#[verifier::external_body]
fn fuzzy_match_score(choice: &str, pattern: &str) -> (r: Option<i64>)
    ensures
        r == fuzzy_score(choice@, pattern@),
{
    fuzzy_matcher::skim::SkimMatcherV2::default().fuzzy_match(choice, pattern)
}

/// The score the resolver ranks by: the fuzzy score, or zero when the
/// matcher reports no similarity at all.
pub open spec fn score_or_zero(o: Option<i64>) -> i64 {
    match o {
        Some(v) => v,
        None => 0,
    }
}

/// Every candidate's canonical name paired with its score against `q`.
pub open spec fn scored_links_spec(cands: Seq<SymbolLinkView>, q: Seq<char>) -> Seq<
    (Seq<char>, i64),
> {
    cands.map_values(
        |c: SymbolLinkView| (fqsl_of(c), score_or_zero(fuzzy_score(fqsl_of(c), q))),
    )
}

/// `x` inserted into the descending-sorted `s`, before the first entry with
/// a score not above `x`'s.
pub open spec fn insert_desc(x: (Seq<char>, i64), s: Seq<(Seq<char>, i64)>) -> Seq<
    (Seq<char>, i64),
>
    decreases s.len(),
{
    if s.len() == 0 {
        seq![x]
    } else if s[0].1 > x.1 {
        seq![s[0]] + insert_desc(x, s.drop_first())
    } else {
        seq![x] + s
    }
}

/// `s` sorted by score, highest first, by repeated insertion.
pub open spec fn sort_desc(s: Seq<(Seq<char>, i64)>) -> Seq<(Seq<char>, i64)>
    decreases s.len(),
{
    if s.len() == 0 {
        s
    } else {
        insert_desc(s[0], sort_desc(s.drop_first()))
    }
}

/// At most the first `n` elements of `s`.
pub open spec fn take_up_to<A>(s: Seq<A>, n: int) -> Seq<A> {
    if s.len() <= n {
        s
    } else {
        s.take(n)
    }
}

/// The ranked near-miss suggestions: of the candidates sorted by score, those
/// with positive scores, at most three, as canonical names.
pub open spec fn suggestions_spec(cands: Seq<SymbolLinkView>, q: Seq<char>) -> Seq<
    Seq<char>,
> {
    take_up_to(
        sort_desc(scored_links_spec(cands, q)).filter(|p: (Seq<char>, i64)| p.1 > 0),
        3,
    ).map_values(|p: (Seq<char>, i64)| p.0)
}

/// The fallback sample shown when nothing scores positively: the first three
/// of the sorted candidates, as canonical names.
pub open spec fn samples_spec(cands: Seq<SymbolLinkView>, q: Seq<char>) -> Seq<Seq<char>> {
    take_up_to(sort_desc(scored_links_spec(cands, q)), 3).map_values(
        |p: (Seq<char>, i64)| p.0,
    )
}

/// A canonical name written back as a reference the prose could use.
pub open spec fn proto_query(f: Seq<char>) -> Seq<char> {
    "proto!("@ + f + ")"@
}

/// The error text when two or more symbols match the query.
pub open spec fn ambiguous_message_spec(fqsls: Seq<Seq<char>>) -> Seq<char> {
    "More than one protobuf symbol matched your query. Replace your link with one of the following:\n"@
        + join_with(fqsls.map_values(|f: Seq<char>| proto_query(f)), "\n"@)
}

/// The error text when nothing matches but some candidates score positively.
pub open spec fn near_miss_message_spec(q: Seq<char>, sugg: Seq<Seq<char>>) -> Seq<char> {
    "No protobuf symbol matched your query `"@ + q
        + "`, consider one of the following near matches:\n"@ + join_with(
        sugg.map_values(|f: Seq<char>| proto_query(f)),
        "\n"@,
    )
}

/// The error text when nothing matches and nothing scores positively.
pub open spec fn sample_message_spec(q: Seq<char>, samples: Seq<Seq<char>>) -> Seq<char> {
    "No protobuf symbol matched your query `"@ + q + "`, or was similar. Sample of valid formats:\n"@
        + join_with(samples.map_values(|f: Seq<char>| proto_query(f)), "\n"@)
}

/// The candidates whose canonical names end, segment for segment, with the
/// query.
pub open spec fn matching_candidates(cands: Seq<SymbolLinkView>, q: Seq<char>) -> Seq<
    SymbolLinkView,
> {
    cands.filter(|c: SymbolLinkView| segment_suffix_match(fqsl_of(c), q))
}

/// The error text `resolve_query` reports when it fails on `q` against
/// `cands`.
pub open spec fn resolution_error_spec(cands: Seq<SymbolLinkView>, q: Seq<char>) -> Seq<
    char,
> {
    let ms = matching_candidates(cands, q);
    if ms.len() >= 2 {
        ambiguous_message_spec(ms.map_values(|c: SymbolLinkView| fqsl_of(c)))
    } else {
        let sugg = suggestions_spec(cands, q);
        if sugg.len() == 0 {
            sample_message_spec(q, samples_spec(cands, q))
        } else {
            near_miss_message_spec(q, sugg)
        }
    }
}

/// The disambiguation law: when exactly one known symbol's dotted segments
/// end with the query, that symbol is the unique match — no other symbol,
/// nested or not, is silently preferred.  Together with `resolve_query`'s
/// contract, resolution then succeeds with exactly that symbol.
pub proof fn lemma_unique_match_resolves(cands: Seq<SymbolLinkView>, q: Seq<char>, i: int)
    requires
        0 <= i < cands.len(),
        segment_suffix_match(fqsl_of(cands[i]), q),
        forall|j: int|
            0 <= j < cands.len() && j != i ==> !segment_suffix_match(
                fqsl_of(#[trigger] cands[j]),
                q,
            ),
    ensures
        matching_candidates(cands, q).len() == 1,
        matching_candidates(cands, q)[0] == cands[i],
    decreases cands.len(),
{
    reveal(Seq::filter);
    let pred = |c: SymbolLinkView| segment_suffix_match(fqsl_of(c), q);
    if i == cands.len() - 1 {
        crate::strutil::lemma_filter_all_false(cands.drop_last(), pred);
        assert(forall|j: int|
            0 <= j < cands.len() - 1 ==> cands.drop_last()[j] == cands[j]);
        assert(cands.filter(pred) == cands.drop_last().filter(pred).push(cands.last()));
    } else {
        lemma_unique_match_resolves(cands.drop_last(), q, i);
        assert(forall|j: int|
            0 <= j < cands.len() - 1 ==> cands.drop_last()[j] == cands[j]);
        assert(!pred(cands.last()));
        assert(cands.filter(pred) == cands.drop_last().filter(pred));
    }
}

/// Where the scan of `insert_desc` stops, the spec insertion cuts the list.
proof fn lemma_insert_desc_at(x: (Seq<char>, i64), s: Seq<(Seq<char>, i64)>, pos: int)
    requires
        0 <= pos <= s.len(),
        forall|j: int| 0 <= j < pos ==> s[j].1 > x.1,
        pos < s.len() ==> !(s[pos].1 > x.1),
    ensures
        insert_desc(x, s) == s.take(pos) + seq![x] + s.skip(pos),
    decreases s.len(),
{
    if s.len() == 0 {
        assert(insert_desc(x, s) =~= s.take(0) + seq![x] + s.skip(0));
    } else if pos == 0 {
        assert(insert_desc(x, s) =~= s.take(0) + seq![x] + s.skip(0));
    } else {
        lemma_insert_desc_at(x, s.drop_first(), pos - 1);
        assert(forall|j: int| 0 <= j < pos - 1 ==> s.drop_first()[j] == s[j + 1]);
        assert(seq![s[0]] + (s.drop_first().take(pos - 1) + seq![x] + s.drop_first().skip(
            pos - 1,
        )) =~= s.take(pos) + seq![x] + s.skip(pos));
    }
}

/// Resolve `query` against the known symbols: the unique suffix match, or
/// the exact diagnostic text when zero or several candidates match.
pub fn resolve_query(query: &str, candidates: &Vec<SymbolLink>) -> (r: Result<
    SymbolLink,
    PreprocessError,
>)
    ensures
        ({
            let cv = candidates@.map_values(|l: SymbolLink| l@);
            let ms = matching_candidates(cv, query@);
            match r {
                Ok(l) => ms.len() == 1 && l@ == ms[0],
                Err(e) => ms.len() != 1 && e@ == resolution_error_spec(cv, query@),
            }
        }),
{
    let ghost cv = candidates@.map_values(|l: SymbolLink| l@);
    let ghost pred = |c: SymbolLinkView| segment_suffix_match(fqsl_of(c), query@);
    let n = candidates.len();

    // Collect the suffix matches.
    let mut matched: Vec<&SymbolLink> = Vec::new();
    let mut i: usize = 0;
    proof {
        assert(cv.take(0).filter(pred) =~= Seq::<SymbolLinkView>::empty());
        assert(matched@.map_values(|l: &SymbolLink| l@) =~= Seq::<SymbolLinkView>::empty());
    }
    while i < n
        invariant
            n == candidates@.len(),
            cv == candidates@.map_values(|l: SymbolLink| l@),
            pred == (|c: SymbolLinkView| segment_suffix_match(fqsl_of(c), query@)),
            0 <= i <= n,
            matched@.map_values(|l: &SymbolLink| l@) == cv.take(i as int).filter(pred),
        decreases n - i,
    {
        let c = &candidates[i];
        proof {
            assert(cv[i as int] == candidates@[i as int]@);
        }
        if c.matches(query) {
            matched.push(c);
            proof {
                lemma_filter_step(cv, i as int, pred);
                assert(matched@.map_values(|l: &SymbolLink| l@) =~= matched@.drop_last()
                    .map_values(|l: &SymbolLink| l@).push(c@));
            }
        } else {
            proof {
                lemma_filter_step(cv, i as int, pred);
            }
        }
        i = i + 1;
    }
    proof {
        assert(cv.take(n as int) =~= cv);
    }

    if matched.len() == 1 {
        let l = matched[0].duplicate();
        proof {
            assert(matched@.map_values(|l: &SymbolLink| l@)[0] == matched@[0]@);
        }
        return Ok(l);
    }

    if matched.len() >= 2 {
        // Build the disambiguation list, one re-usable query per match.
        let mut replacements: Vec<String> = Vec::new();
        let mut j: usize = 0;
        let ghost ms = matching_candidates(cv, query@);
        while j < matched.len()
            invariant
                ms == matching_candidates(cv, query@),
                matched@.map_values(|l: &SymbolLink| l@) == ms,
                0 <= j <= matched@.len(),
                replacements@.map_values(|x: String| x@) == ms.take(j as int).map_values(
                    |c: SymbolLinkView| proto_query(fqsl_of(c)),
                ),
            decreases matched@.len() - j,
        {
            proof {
                assert(matched@.map_values(|l: &SymbolLink| l@)[j as int]
                    == matched@[j as int]@);
            }
            let w = proto_wrap(matched[j].fqsl().as_str());
            let ghost pre = replacements@;
            replacements.push(w);
            proof {
                let lhs = replacements@.map_values(|x: String| x@);
                let rhs = ms.take(j + 1).map_values(
                    |c: SymbolLinkView| proto_query(fqsl_of(c)),
                );
                assert(pre.map_values(|x: String| x@).len() == pre.len());
                assert(ms.take(j as int).map_values(
                    |c: SymbolLinkView| proto_query(fqsl_of(c)),
                ).len() == j);
                assert(lhs.len() == j + 1);
                assert(rhs.len() == j + 1);
                assert forall|k: int| 0 <= k < j + 1 implies lhs[k] == rhs[k] by {
                    assert(lhs[k] == replacements@[k]@);
                    assert(ms.take(j + 1)[k] == ms[k]);
                    assert(rhs[k] == proto_query(fqsl_of(ms[k])));
                    if k < j {
                        assert(replacements@[k] == pre[k]);
                        assert(pre.map_values(|x: String| x@)[k] == pre[k]@);
                        assert(ms.take(j as int).map_values(
                            |c: SymbolLinkView| proto_query(fqsl_of(c)),
                        )[k] == proto_query(fqsl_of(ms[k])));
                    } else {
                        assert(replacements@[k] == w);
                    }
                }
                assert(lhs =~~= rhs);
            }
            j = j + 1;
        }
        proof {
            assert(ms.take(ms.len() as int) =~= ms);
            assert(ms.take(ms.len() as int).map_values(
                |c: SymbolLinkView| proto_query(fqsl_of(c)),
            ) =~~= ms.map_values(|c: SymbolLinkView| fqsl_of(c)).map_values(
                |f: Seq<char>| proto_query(f),
            ));
        }
        let mut message = String::new();
        message.append(
            "More than one protobuf symbol matched your query. Replace your link with one of the following:\n",
        );
        message.append(crate::strutil::join_strings(&replacements, "\n").as_str());
        return Err(PreprocessError::new(message));
    }

    // Nothing matched: score every candidate and rank the near misses.
    let scored = score_candidates(candidates, query);
    let sorted = sort_scored(scored);
    let ghost sv = sort_desc(scored_links_spec(cv, query@));

    // The suggestions: positive scores only, at most three.
    let mut suggestions: Vec<String> = Vec::new();
    let mut j: usize = 0;
    proof {
        reveal(Seq::filter);
        assert(sv.take(0) =~= Seq::<(Seq<char>, i64)>::empty());
        assert(sv.take(0).filter(|p: (Seq<char>, i64)| p.1 > 0)
            =~= Seq::<(Seq<char>, i64)>::empty());
        assert(suggestions@.map_values(|x: String| x@) =~= Seq::<Seq<char>>::empty());
    }
    while j < sorted.len()
        invariant
            sv == sort_desc(scored_links_spec(cv, query@)),
            sorted@.map_values(|p: (String, i64)| (p.0@, p.1)) == sv,
            0 <= j <= sorted@.len(),
            suggestions@.map_values(|x: String| x@) == take_up_to(
                sv.take(j as int).filter(|p: (Seq<char>, i64)| p.1 > 0),
                3,
            ).map_values(|p: (Seq<char>, i64)| p.0).map_values(
                |f: Seq<char>| proto_query(f),
            ),
            suggestions@.len() <= 3,
        decreases sorted@.len() - j,
    {
        proof {
            assert(sorted@.map_values(|p: (String, i64)| (p.0@, p.1))[j as int] == (
                sorted@[j as int].0@,
                sorted@[j as int].1,
            ));
            lemma_filter_step(sv, j as int, |p: (Seq<char>, i64)| p.1 > 0);
        }
        let ghost fj = sv.take(j as int).filter(|p: (Seq<char>, i64)| p.1 > 0);
        let ghost f1 = sv.take(j + 1).filter(|p: (Seq<char>, i64)| p.1 > 0);
        proof {
            assert(suggestions@.map_values(|x: String| x@).len() == suggestions@.len());
            assert(take_up_to(fj, 3).map_values(|p: (Seq<char>, i64)| p.0).map_values(
                |f: Seq<char>| proto_query(f),
            ).len() == take_up_to(fj, 3).map_values(|p: (Seq<char>, i64)| p.0).len());
            assert(take_up_to(fj, 3).map_values(|p: (Seq<char>, i64)| p.0).len()
                == take_up_to(fj, 3).len());
            assert(suggestions@.len() == take_up_to(fj, 3).len());
        }
        if sorted[j].1 > 0 && suggestions.len() < 3 {
            proof {
                assert(fj.len() == suggestions@.len());
                assert(f1 == fj.push(sv[j as int]));
            }
            let w = proto_wrap(sorted[j].0.as_str());
            let ghost pre = suggestions@;
            suggestions.push(w);
            proof {
                assert(take_up_to(f1, 3) == f1);
                let lhs = suggestions@.map_values(|x: String| x@);
                let rhs = take_up_to(f1, 3).map_values(|p: (Seq<char>, i64)| p.0)
                    .map_values(|f: Seq<char>| proto_query(f));
                assert(pre.map_values(|x: String| x@).len() == pre.len());
                assert(lhs.len() == pre.len() + 1);
                assert(rhs.len() == f1.len());
                assert forall|k: int| 0 <= k < lhs.len() implies lhs[k] == rhs[k] by {
                    assert(lhs[k] == suggestions@[k]@);
                    assert(rhs[k] == proto_query(f1[k].0));
                    if k < pre.len() {
                        assert(suggestions@[k] == pre[k]);
                        assert(pre.map_values(|x: String| x@)[k] == pre[k]@);
                        assert(take_up_to(fj, 3) == fj);
                        assert(take_up_to(fj, 3).map_values(|p: (Seq<char>, i64)| p.0)
                            .map_values(|f: Seq<char>| proto_query(f))[k] == proto_query(
                            fj[k].0,
                        ));
                        assert(f1[k] == fj[k]);
                    } else {
                        assert(suggestions@[k] == w);
                        assert(f1[k] == sv[j as int]);
                        assert(sorted@.map_values(|p: (String, i64)| (p.0@, p.1))[j as int]
                            == (sorted@[j as int].0@, sorted@[j as int].1));
                        assert(sorted@[j as int].0@ == sv[j as int].0);
                    }
                }
                assert(lhs =~~= rhs);
            }
        } else {
            proof {
                if sv[j as int].1 > 0 {
                    assert(suggestions@.len() == 3);
                    assert(fj.len() >= 3);
                    assert(f1 == fj.push(sv[j as int]));
                    assert(take_up_to(fj, 3) =~= fj.take(3));
                    assert(take_up_to(f1, 3) =~= f1.take(3));
                    assert forall|k: int| 0 <= k < 3 implies f1.take(3)[k] == fj.take(
                        3,
                    )[k] by {
                        assert(f1[k] == fj[k]);
                    }
                    assert(f1.take(3) =~= fj.take(3));
                } else {
                    assert(f1 == fj);
                }
                assert(take_up_to(f1, 3) == take_up_to(fj, 3));
                assert(suggestions@.map_values(|x: String| x@) == take_up_to(
                    f1,
                    3,
                ).map_values(|p: (Seq<char>, i64)| p.0).map_values(
                    |f: Seq<char>| proto_query(f),
                ));
            }
        }
        j = j + 1;
    }
    proof {
        assert(sv.take(sv.len() as int) =~= sv);
        assert(take_up_to(sv.filter(|p: (Seq<char>, i64)| p.1 > 0), 3).map_values(
            |p: (Seq<char>, i64)| p.0,
        ).map_values(|f: Seq<char>| proto_query(f)) =~~= suggestions_spec(
            cv,
            query@,
        ).map_values(|f: Seq<char>| proto_query(f)));
    }

    let mut message = String::new();
    if suggestions.len() == 0 {
        // Nothing scored positively: sample up to three valid names instead.
        let mut samples: Vec<String> = Vec::new();
        let mut j2: usize = 0;
        proof {
            assert(samples@.map_values(|x: String| x@) =~= Seq::<Seq<char>>::empty());
            assert(take_up_to(sv, 3).take(0) =~= Seq::<(Seq<char>, i64)>::empty());
        }
        while j2 < sorted.len() && j2 < 3
            invariant
                sv == sort_desc(scored_links_spec(cv, query@)),
                sorted@.map_values(|p: (String, i64)| (p.0@, p.1)) == sv,
                0 <= j2 <= sorted@.len(),
                j2 <= 3,
                samples@.map_values(|x: String| x@) == take_up_to(sv, 3).take(
                    j2 as int,
                ).map_values(|p: (Seq<char>, i64)| p.0).map_values(
                    |f: Seq<char>| proto_query(f),
                ),
            decreases sorted@.len() - j2,
        {
            proof {
                assert(sorted@.map_values(|p: (String, i64)| (p.0@, p.1))[j2 as int] == (
                    sorted@[j2 as int].0@,
                    sorted@[j2 as int].1,
                ));
            }
            let w = proto_wrap(sorted[j2].0.as_str());
            let ghost pre = samples@;
            samples.push(w);
            proof {
                let lhs = samples@.map_values(|x: String| x@);
                let rhs = take_up_to(sv, 3).take(j2 + 1).map_values(
                    |p: (Seq<char>, i64)| p.0,
                ).map_values(|f: Seq<char>| proto_query(f));
                assert(pre.map_values(|x: String| x@).len() == pre.len());
                assert(take_up_to(sv, 3).take(j2 as int).map_values(
                    |p: (Seq<char>, i64)| p.0,
                ).map_values(|f: Seq<char>| proto_query(f)).len() == take_up_to(
                    sv,
                    3,
                ).take(j2 as int).map_values(|p: (Seq<char>, i64)| p.0).len());
                assert(pre.len() == j2);
                assert(lhs.len() == j2 + 1);
                assert(rhs.len() == j2 + 1);
                assert forall|k: int| 0 <= k < j2 + 1 implies lhs[k] == rhs[k] by {
                    assert(lhs[k] == samples@[k]@);
                    assert(take_up_to(sv, 3).take(j2 + 1)[k] == sv[k]);
                    assert(rhs[k] == proto_query(sv[k].0));
                    if k < j2 {
                        assert(samples@[k] == pre[k]);
                        assert(pre.map_values(|x: String| x@)[k] == pre[k]@);
                        assert(take_up_to(sv, 3).take(j2 as int)[k] == sv[k]);
                        assert(take_up_to(sv, 3).take(j2 as int).map_values(
                            |p: (Seq<char>, i64)| p.0,
                        ).map_values(|f: Seq<char>| proto_query(f))[k] == proto_query(
                            sv[k].0,
                        ));
                    } else {
                        assert(samples@[k] == w);
                        assert(sorted@.map_values(|p: (String, i64)| (p.0@, p.1))[k] == (
                            sorted@[k].0@,
                            sorted@[k].1,
                        ));
                    }
                }
                assert(lhs =~~= rhs);
            }
            j2 = j2 + 1;
        }
        proof {
            assert(take_up_to(sv, 3).take(take_up_to(sv, 3).len() as int) =~= take_up_to(
                sv,
                3,
            ));
            if sv.len() > 3 {
                assert(take_up_to(sv, 3).take(3) =~= take_up_to(sv, 3));
            }
            assert(take_up_to(sv, 3).map_values(|p: (Seq<char>, i64)| p.0).map_values(
                |f: Seq<char>| proto_query(f),
            ) =~~= samples_spec(cv, query@).map_values(|f: Seq<char>| proto_query(f)));
        }
        message.append("No protobuf symbol matched your query `");
        message.append(query);
        message.append("`, or was similar. Sample of valid formats:\n");
        message.append(crate::strutil::join_strings(&samples, "\n").as_str());
    } else {
        message.append("No protobuf symbol matched your query `");
        message.append(query);
        message.append("`, consider one of the following near matches:\n");
        message.append(crate::strutil::join_strings(&suggestions, "\n").as_str());
    }
    Err(PreprocessError::new(message))
}

/// `proto!(<name>)`: a name written back as a reference.
fn proto_wrap(f: &str) -> (r: String)
    ensures
        r@ == proto_query(f@),
{
    let mut r = String::new();
    r.append("proto!(");
    r.append(f);
    r.append(")");
    r
}

/// Every candidate's canonical name with its fuzzy score against the query.
fn score_candidates(candidates: &Vec<SymbolLink>, query: &str) -> (r: Vec<(String, i64)>)
    ensures
        r@.map_values(|p: (String, i64)| (p.0@, p.1)) == scored_links_spec(
            candidates@.map_values(|l: SymbolLink| l@),
            query@,
        ),
{
    let ghost cv = candidates@.map_values(|l: SymbolLink| l@);
    let n = candidates.len();
    let mut r: Vec<(String, i64)> = Vec::new();
    let mut i: usize = 0;
    proof {
        assert(r@.map_values(|p: (String, i64)| (p.0@, p.1)) =~= Seq::<
            (Seq<char>, i64),
        >::empty());
        assert(scored_links_spec(cv.take(0), query@) =~= Seq::<(Seq<char>, i64)>::empty());
    }
    while i < n
        invariant
            n == candidates@.len(),
            cv == candidates@.map_values(|l: SymbolLink| l@),
            0 <= i <= n,
            r@.map_values(|p: (String, i64)| (p.0@, p.1)) == scored_links_spec(
                cv.take(i as int),
                query@,
            ),
        decreases n - i,
    {
        proof {
            assert(cv[i as int] == candidates@[i as int]@);
        }
        let f = candidates[i].fqsl();
        let score: i64 = match fuzzy_match_score(f.as_str(), query) {
            Some(v) => v,
            None => 0,
        };
        let ghost pre = r@;
        r.push((f, score));
        proof {
            let lhs = r@.map_values(|p: (String, i64)| (p.0@, p.1));
            let rhs = scored_links_spec(cv.take(i + 1), query@);
            assert(pre.map_values(|p: (String, i64)| (p.0@, p.1)).len() == pre.len());
            assert(scored_links_spec(cv.take(i as int), query@).len() == i);
            assert(pre.len() == i);
            assert(lhs.len() == i + 1);
            assert(rhs.len() == i + 1);
            assert(score == score_or_zero(fuzzy_score(f@, query@)));
            assert forall|k: int| 0 <= k < i + 1 implies lhs[k] == rhs[k] by {
                assert(lhs[k] == (r@[k].0@, r@[k].1));
                assert(cv.take(i + 1)[k] == cv[k]);
                assert(rhs[k] == (
                    fqsl_of(cv[k]),
                    score_or_zero(fuzzy_score(fqsl_of(cv[k]), query@)),
                ));
                if k < i {
                    assert(r@[k] == pre[k]);
                    assert(pre.map_values(|p: (String, i64)| (p.0@, p.1))[k] == (
                        pre[k].0@,
                        pre[k].1,
                    ));
                    assert(scored_links_spec(cv.take(i as int), query@)[k] == (
                        fqsl_of(cv[k]),
                        score_or_zero(fuzzy_score(fqsl_of(cv[k]), query@)),
                    ));
                } else {
                    assert(r@[k] == (f, score));
                    assert(f@ == fqsl_of(cv[k]));
                }
            }
            assert(lhs =~~= rhs);
        }
        i = i + 1;
    }
    proof {
        assert(cv.take(n as int) =~= cv);
    }
    r
}

/// The scored candidates sorted by score, highest first.
fn sort_scored(scored: Vec<(String, i64)>) -> (r: Vec<(String, i64)>)
    ensures
        r@.map_values(|p: (String, i64)| (p.0@, p.1)) == sort_desc(
            scored@.map_values(|p: (String, i64)| (p.0@, p.1)),
        ),
{
    let ghost sv = scored@.map_values(|p: (String, i64)| (p.0@, p.1));
    let mut scored = scored;
    let mut r: Vec<(String, i64)> = Vec::new();
    proof {
        assert(sv.skip(sv.len() as int) =~= Seq::<(Seq<char>, i64)>::empty());
        assert(r@.map_values(|p: (String, i64)| (p.0@, p.1)) =~= sort_desc(
            sv.skip(sv.len() as int),
        ));
        assert(sv.take(sv.len() as int) =~= sv);
    }
    while scored.len() > 0
        invariant
            scored@.map_values(|p: (String, i64)| (p.0@, p.1)) == sv.take(
                scored@.len() as int,
            ),
            scored@.len() <= sv.len(),
            r@.map_values(|p: (String, i64)| (p.0@, p.1)) == sort_desc(
                sv.skip(scored@.len() as int),
            ),
        decreases scored@.len(),
    {
        let ghost pre = scored@;
        let x = scored.pop().unwrap();
        let ghost i = scored@.len() as int;
        proof {
            assert(pre.map_values(|p: (String, i64)| (p.0@, p.1))[i] == (
                pre[i].0@,
                pre[i].1,
            ));
            assert((x.0@, x.1) == sv.take(i + 1)[i]);
            assert(scored@.map_values(|p: (String, i64)| (p.0@, p.1)) =~= sv.take(i));
        }
        insert_sorted(&mut r, x);
        proof {
            assert(sv.skip(i).drop_first() =~= sv.skip(i + 1));
            assert(sv.skip(i)[0] == sv[i]);
        }
    }
    proof {
        assert(sv.take(0) =~= Seq::<(Seq<char>, i64)>::empty());
        assert(sv.skip(0) =~= sv);
    }
    r
}

/// Insert one scored name into the descending-sorted vector, before the
/// first entry whose score is not above it.
fn insert_sorted(r: &mut Vec<(String, i64)>, x: (String, i64))
    ensures
        final(r)@.map_values(|p: (String, i64)| (p.0@, p.1)) == insert_desc(
            (x.0@, x.1),
            old(r)@.map_values(|p: (String, i64)| (p.0@, p.1)),
        ),
{
    let ghost rv = old(r)@.map_values(|p: (String, i64)| (p.0@, p.1));
    let n = r.len();
    let mut pos: usize = 0;
    while pos < n && r[pos].1 > x.1
        invariant
            n == r@.len(),
            r@ == old(r)@,
            rv == r@.map_values(|p: (String, i64)| (p.0@, p.1)),
            0 <= pos <= n,
            forall|j: int| 0 <= j < pos ==> rv[j].1 > x.1,
        decreases n - pos,
    {
        proof {
            assert(rv[pos as int] == (r@[pos as int].0@, r@[pos as int].1));
        }
        pos = pos + 1;
    }
    proof {
        if pos < n {
            assert(rv[pos as int] == (r@[pos as int].0@, r@[pos as int].1));
        }
        lemma_insert_desc_at((x.0@, x.1), rv, pos as int);
    }
    r.insert(pos, x);
    proof {
        assert(final(r)@.map_values(|p: (String, i64)| (p.0@, p.1)) =~= rv.take(
            pos as int,
        ) + seq![(x.0@, x.1)] + rv.skip(pos as int));
    }
}

} // verus!
