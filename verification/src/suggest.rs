use vstd::prelude::*;

verus! {

broadcast use vstd::std_specs::vec::group_vec_axioms;

// ---------------------------------------------------------------------------
// The similarity measure
// ---------------------------------------------------------------------------

/// The bit pattern of the similarity that `strsim::jaro_winkler` reports
/// for the two strings.  The result lies in the unit interval and depends
/// on the two strings alone; for such non-negative doubles the bit
/// patterns, read as unsigned integers, order exactly as the values do, so
/// comparisons on this name are comparisons on the similarity.
pub uninterp spec fn similarity_bits(a: Seq<char>, b: Seq<char>) -> u64;

/// Relies on `strsim::jaro_winkler`: a pure function of the two strings
/// whose result lies in the unit interval, here taken as its bit pattern.
#[verifier::external_body]
fn jaro_winkler_bits(a: &str, b: &str) -> (r: u64)
    ensures
        r == similarity_bits(a@, b@),
{
    strsim::jaro_winkler(a, b).to_bits()
}

/// The bit pattern of the similarity threshold, the double four fifths: a
/// candidate is suggested only when its similarity exceeds it.
pub const CLOSE_MATCH_THRESHOLD_BITS: u64 = 0x3FE9_9999_9999_999A;

/// The candidate is similar enough to the unknown name to suggest.
pub open spec fn is_close(unknown: Seq<char>, candidate: Seq<char>) -> bool {
    similarity_bits(unknown, candidate) > CLOSE_MATCH_THRESHOLD_BITS
}

// ---------------------------------------------------------------------------
// The suggestion list, as a specification
// ---------------------------------------------------------------------------

/// The texts of a candidate list.
pub open spec fn strings_model(s: Seq<String>) -> Seq<Seq<char>>
    decreases s,
{
    if s.len() == 0 {
        Seq::empty()
    } else {
        seq![s[0]@] + strings_model(s.drop_first())
    }
}

pub proof fn lemma_strings_model(s: Seq<String>)
    ensures
        strings_model(s).len() == s.len(),
        forall|i: int| 0 <= i < s.len() ==> strings_model(s)[i] == (#[trigger] s[i])@,
    decreases s.len(),
{
    if s.len() > 0 {
        lemma_strings_model(s.drop_first());
        assert forall|i: int| 0 <= i < s.len() implies strings_model(s)[i] == (
        #[trigger] s[i])@ by {
            if i > 0 {
                assert(s.drop_first()[i - 1] == s[i]);
                assert(strings_model(s)[i] == strings_model(s.drop_first())[i - 1]);
            }
        }
    }
}

/// The close candidates, in candidate order, each with its similarity.
pub open spec fn close_pairs(unknown: Seq<char>, cands: Seq<Seq<char>>) -> Seq<(u64, Seq<char>)>
    decreases cands,
{
    if cands.len() == 0 {
        Seq::empty()
    } else {
        (if is_close(unknown, cands[0]) {
            seq![(similarity_bits(unknown, cands[0]), cands[0])]
        } else {
            Seq::empty()
        }) + close_pairs(unknown, cands.drop_first())
    }
}

/// Inserts a pair behind every earlier pair whose similarity is at least
/// as high: a stable descending insertion.
pub open spec fn insert_desc(x: (u64, Seq<char>), s: Seq<(u64, Seq<char>)>) -> Seq<
    (u64, Seq<char>),
>
    decreases s,
{
    if s.len() == 0 {
        seq![x]
    } else if x.0 > s[0].0 {
        seq![x] + s
    } else {
        seq![s[0]] + insert_desc(x, s.drop_first())
    }
}

/// Stable insertion sort by descending similarity: candidates of equal
/// similarity keep their relative order.
pub open spec fn sort_desc(s: Seq<(u64, Seq<char>)>) -> Seq<(u64, Seq<char>)>
    decreases s.len(),
{
    if s.len() == 0 {
        Seq::empty()
    } else {
        insert_desc(s.last(), sort_desc(s.drop_last()))
    }
}

// ---------------------------------------------------------------------------
// Supporting lemmas
// ---------------------------------------------------------------------------

spec fn pairs_model(s: Seq<(u64, String)>) -> Seq<(u64, Seq<char>)>
    decreases s,
{
    if s.len() == 0 {
        Seq::empty()
    } else {
        seq![(s[0].0, s[0].1@)] + pairs_model(s.drop_first())
    }
}

proof fn lemma_pairs_model(s: Seq<(u64, String)>)
    ensures
        pairs_model(s).len() == s.len(),
        forall|i: int| 0 <= i < s.len() ==> pairs_model(s)[i] == ((#[trigger] s[i]).0, s[i].1@),
    decreases s.len(),
{
    if s.len() > 0 {
        lemma_pairs_model(s.drop_first());
        assert forall|i: int| 0 <= i < s.len() implies pairs_model(s)[i] == ((#[trigger] s[i]).0,
        s[i].1@) by {
            if i > 0 {
                assert(s.drop_first()[i - 1] == s[i]);
                assert(pairs_model(s)[i] == pairs_model(s.drop_first())[i - 1]);
            }
        }
    }
}

proof fn lemma_pairs_model_push(s: Seq<(u64, String)>, p: (u64, String))
    ensures
        pairs_model(s.push(p)) =~= pairs_model(s).push((p.0, p.1@)),
    decreases s.len(),
{
    if s.len() == 0 {
        assert(s.push(p).drop_first() =~= Seq::<(u64, String)>::empty());
        assert(s.push(p)[0] == p);
        assert(pairs_model(s.push(p)) == seq![(s.push(p)[0].0, s.push(p)[0].1@)] + pairs_model(
            s.push(p).drop_first(),
        ));
        assert(pairs_model(s.push(p).drop_first()) =~= Seq::<(u64, Seq<char>)>::empty());
        assert(pairs_model(s) =~= Seq::<(u64, Seq<char>)>::empty());
        assert(pairs_model(s.push(p)) =~= pairs_model(s).push((p.0, p.1@)));
    } else {
        lemma_pairs_model_push(s.drop_first(), p);
        assert(s.push(p).drop_first() =~= s.drop_first().push(p));
        assert(s.push(p)[0] == s[0]);
        let h = seq![(s[0].0, s[0].1@)];
        let t = pairs_model(s.drop_first());
        let m = (p.0, p.1@);
        assert(pairs_model(s.push(p)) == h + pairs_model(s.drop_first().push(p)));
        assert(pairs_model(s.push(p)) =~= h + t.push(m));
        assert(pairs_model(s) == h + t);
        assert((h + t).push(m) =~= h + t.push(m));
        assert(pairs_model(s.push(p)) =~= pairs_model(s).push(m));
    }
}

proof fn lemma_close_pairs_push(unknown: Seq<char>, cands: Seq<Seq<char>>, c: Seq<char>)
    ensures
        close_pairs(unknown, cands.push(c)) =~= close_pairs(unknown, cands) + (if is_close(
            unknown,
            c,
        ) {
            seq![(similarity_bits(unknown, c), c)]
        } else {
            Seq::<(u64, Seq<char>)>::empty()
        }),
    decreases cands.len(),
{
    let tail = (if is_close(unknown, c) {
        seq![(similarity_bits(unknown, c), c)]
    } else {
        Seq::<(u64, Seq<char>)>::empty()
    });
    if cands.len() == 0 {
        assert(cands.push(c).drop_first() =~= Seq::<Seq<char>>::empty());
        assert(cands.push(c)[0] == c);
        assert(close_pairs(unknown, cands.push(c)) == tail + close_pairs(
            unknown,
            cands.push(c).drop_first(),
        ));
        assert(close_pairs(unknown, cands.push(c).drop_first()) =~= Seq::<
            (u64, Seq<char>),
        >::empty());
        assert(close_pairs(unknown, cands) =~= Seq::<(u64, Seq<char>)>::empty());
        assert(close_pairs(unknown, cands.push(c)) =~= close_pairs(unknown, cands) + tail);
    } else {
        lemma_close_pairs_push(unknown, cands.drop_first(), c);
        assert(cands.push(c).drop_first() =~= cands.drop_first().push(c));
        assert(cands.push(c)[0] == cands[0]);
        let h = (if is_close(unknown, cands[0]) {
            seq![(similarity_bits(unknown, cands[0]), cands[0])]
        } else {
            Seq::<(u64, Seq<char>)>::empty()
        });
        let t = close_pairs(unknown, cands.drop_first());
        assert(close_pairs(unknown, cands.push(c)) == h + close_pairs(
            unknown,
            cands.drop_first().push(c),
        ));
        assert(close_pairs(unknown, cands.push(c)) =~= h + (t + tail));
        assert(close_pairs(unknown, cands) == h + t);
        assert(h + (t + tail) =~= (h + t) + tail);
        assert(close_pairs(unknown, cands.push(c)) =~= close_pairs(unknown, cands) + tail);
    }
}

proof fn lemma_close_pairs_empty(unknown: Seq<char>, cands: Seq<Seq<char>>)
    ensures
        (close_pairs(unknown, cands).len() == 0) <==> (forall|i: int|
            0 <= i < cands.len() ==> !is_close(unknown, #[trigger] cands[i])),
    decreases cands.len(),
{
    if cands.len() > 0 {
        lemma_close_pairs_empty(unknown, cands.drop_first());
        if close_pairs(unknown, cands).len() == 0 {
            assert(!is_close(unknown, cands[0]));
            assert forall|i: int| 0 <= i < cands.len() implies !is_close(
                unknown,
                #[trigger] cands[i],
            ) by {
                if i > 0 {
                    assert(cands.drop_first()[i - 1] == cands[i]);
                }
            }
        }
        if forall|i: int| 0 <= i < cands.len() ==> !is_close(unknown, #[trigger] cands[i]) {
            assert forall|i: int| 0 <= i < cands.drop_first().len() implies !is_close(
                unknown,
                #[trigger] cands.drop_first()[i],
            ) by {
                assert(cands.drop_first()[i] == cands[i + 1]);
            }
        }
    }
}

proof fn lemma_insert_desc_at(x: (u64, Seq<char>), s: Seq<(u64, Seq<char>)>, j: int)
    requires
        0 <= j <= s.len(),
        forall|i: int| 0 <= i < j ==> (#[trigger] s[i]).0 >= x.0,
        j < s.len() ==> s[j].0 < x.0,
    ensures
        insert_desc(x, s) =~= s.subrange(0, j) + seq![x] + s.subrange(j, s.len() as int),
    decreases s.len(),
{
    if s.len() == 0 {
        assert(s.subrange(0, 0) =~= Seq::<(u64, Seq<char>)>::empty());
    } else if x.0 > s[0].0 {
        assert(j == 0);
        assert(s.subrange(0, 0) =~= Seq::<(u64, Seq<char>)>::empty());
        assert(s.subrange(0, s.len() as int) =~= s);
    } else {
        assert(s[0].0 >= x.0);
        assert(j >= 1);
        assert forall|i: int| 0 <= i < j - 1 implies (#[trigger] s.drop_first()[i]).0 >= x.0 by {
            assert(s.drop_first()[i] == s[i + 1]);
        }
        if j - 1 < s.drop_first().len() {
            assert(s.drop_first()[j - 1] == s[j]);
        }
        lemma_insert_desc_at(x, s.drop_first(), j - 1);
        assert(s.drop_first().subrange(0, j - 1) =~= s.subrange(1, j));
        assert(s.drop_first().subrange(j - 1, s.drop_first().len() as int) =~= s.subrange(
            j,
            s.len() as int,
        ));
        assert(insert_desc(x, s) == seq![s[0]] + insert_desc(x, s.drop_first()));
        assert(insert_desc(x, s) =~= seq![s[0]] + (s.subrange(1, j) + seq![x] + s.subrange(
            j,
            s.len() as int,
        )));
        assert(seq![s[0]] + s.subrange(1, j) =~= s.subrange(0, j));
        assert(insert_desc(x, s) =~= s.subrange(0, j) + seq![x] + s.subrange(j, s.len() as int));
    }
}

// ---------------------------------------------------------------------------
// The suggestion function
// ---------------------------------------------------------------------------

/// The position a new pair takes: behind every pair at least as similar.
fn find_insert_pos(v: &Vec<(u64, String)>, key: u64) -> (j: usize)
    ensures
        j <= v@.len(),
        forall|i: int| 0 <= i < j ==> (#[trigger] v@[i]).0 >= key,
        j < v@.len() ==> v@[j as int].0 < key,
{
    let n = v.len();
    let mut j: usize = 0;
    while j < n
        invariant
            j <= n,
            n == v@.len(),
            forall|i: int| 0 <= i < j ==> (#[trigger] v@[i]).0 >= key,
        decreases n - j,
    {
        if v[j].0 < key {
            return j;
        }
        j = j + 1;
    }
    j
}

/// Suggests the candidates similar to an unknown name: `None` when none is
/// close; otherwise the close ones, most similar first, candidates of
/// equal similarity in their given order.
pub fn did_you_mean(unknown: &str, candidates: &Vec<String>) -> (r: Option<Vec<String>>)
    ensures
        r is Some <==> exists|i: int|
            0 <= i < candidates@.len() && is_close(unknown@, (#[trigger] candidates@[i])@),
        r matches Some(v) ==> strings_model(v@) == sort_desc(
            close_pairs(unknown@, strings_model(candidates@)),
        ).map_values(|p: (u64, Seq<char>)| p.1),
{
    let ghost cm = strings_model(candidates@);
    proof {
        lemma_strings_model(candidates@);
    }
    let mut filtered: Vec<(u64, String)> = Vec::new();
    let n = candidates.len();
    let mut i: usize = 0;
    proof {
        assert(cm.subrange(0, 0) =~= Seq::<Seq<char>>::empty());
        assert(pairs_model(filtered@) =~= close_pairs(unknown@, cm.subrange(0, 0)));
    }
    while i < n
        invariant
            i <= n,
            n == candidates@.len(),
            cm == strings_model(candidates@),
            cm.len() == n,
            forall|k: int| 0 <= k < n ==> cm[k] == (#[trigger] candidates@[k])@,
            pairs_model(filtered@) =~= close_pairs(unknown@, cm.subrange(0, i as int)),
        decreases n - i,
    {
        let ghost prefix = cm.subrange(0, i as int);
        proof {
            lemma_close_pairs_push(unknown@, prefix, cm[i as int]);
            assert(cm.subrange(0, i as int + 1) =~= prefix.push(cm[i as int]));
        }
        let b = jaro_winkler_bits(unknown, candidates[i].as_str());
        if b > CLOSE_MATCH_THRESHOLD_BITS {
            proof {
                lemma_pairs_model_push(filtered@, (b, candidates@[i as int]));
            }
            filtered.push((b, candidates[i].clone()));
        }
        i = i + 1;
    }
    proof {
        assert(cm.subrange(0, n as int) =~= cm);
        lemma_close_pairs_empty(unknown@, cm);
        lemma_pairs_model(filtered@);
    }
    if filtered.len() == 0 {
        return None;
    }
    let ghost all = pairs_model(filtered@);
    let mut ranked: Vec<(u64, String)> = Vec::new();
    let ghost mut k: int = 0;
    proof {
        assert(all.subrange(0, 0) =~= Seq::<(u64, Seq<char>)>::empty());
        assert(pairs_model(ranked@) =~= sort_desc(all.subrange(0, 0)));
        assert(pairs_model(filtered@) =~= all.subrange(0, all.len() as int));
    }
    while filtered.len() > 0
        invariant
            0 <= k <= all.len(),
            pairs_model(filtered@) =~= all.subrange(k, all.len() as int),
            pairs_model(ranked@) =~= sort_desc(all.subrange(0, k)),
        decreases filtered@.len(),
    {
        let ghost before = filtered@;
        let x = filtered.remove(0);
        let ghost xm = (x.0, x.1@);
        proof {
            assert(filtered@ =~= before.drop_first());
            assert(pairs_model(before) == seq![(before[0].0, before[0].1@)] + pairs_model(
                filtered@,
            ));
            assert(pairs_model(before)[0] == xm);
            assert(all.subrange(k, all.len() as int)[0] == all[k]);
            assert(xm == all[k]);
            assert(pairs_model(filtered@) =~= pairs_model(before).drop_first());
            assert(all.subrange(k, all.len() as int).drop_first() =~= all.subrange(
                k + 1,
                all.len() as int,
            ));
            lemma_pairs_model(ranked@);
        }
        let j = find_insert_pos(&ranked, x.0);
        let ghost ranked_before = ranked@;
        ranked.insert(j, x);
        proof {
            let sorted_before = sort_desc(all.subrange(0, k));
            assert forall|i2: int| 0 <= i2 < j implies (#[trigger] sorted_before[i2]).0
                >= xm.0 by {
                assert(sorted_before[i2] == (ranked_before[i2].0, ranked_before[i2].1@));
            }
            if j < sorted_before.len() {
                assert(sorted_before[j as int] == (ranked_before[j as int].0,
                ranked_before[j as int].1@));
            }
            lemma_insert_desc_at(xm, sorted_before, j as int);
            let target = sorted_before.subrange(0, j as int) + seq![xm] + sorted_before.subrange(
                j as int,
                sorted_before.len() as int,
            );
            lemma_pairs_model(ranked@);
            assert(ranked@ =~= ranked_before.insert(j as int, x));
            assert forall|i2: int| 0 <= i2 < ranked@.len() implies #[trigger] pairs_model(
                ranked@,
            )[i2] == target[i2] by {
                if i2 < j {
                    assert(ranked@[i2] == ranked_before[i2]);
                    assert(sorted_before[i2] == (ranked_before[i2].0, ranked_before[i2].1@));
                } else if i2 == j {
                    assert(ranked@[i2] == x);
                } else {
                    assert(ranked@[i2] == ranked_before[i2 - 1]);
                    assert(sorted_before[i2 - 1] == (ranked_before[i2 - 1].0,
                    ranked_before[i2 - 1].1@));
                }
            }
            assert(pairs_model(ranked@) =~= target);
            assert(pairs_model(ranked@) =~= insert_desc(xm, sorted_before));
            assert(all.subrange(0, k + 1).drop_last() =~= all.subrange(0, k));
            assert(all.subrange(0, k + 1).last() == all[k]);
            assert(sort_desc(all.subrange(0, k + 1)) == insert_desc(
                all[k],
                sort_desc(all.subrange(0, k)),
            ));
            k = k + 1;
        }
    }
    proof {
        assert(all.subrange(0, all.len() as int) =~= all);
        assert(pairs_model(ranked@) =~= sort_desc(all));
    }
    let ghost sortedm = sort_desc(all);
    let mut out: Vec<String> = Vec::new();
    let ghost mut k2: int = 0;
    proof {
        lemma_pairs_model(ranked@);
        assert(strings_model(out@) =~= sortedm.subrange(0, 0).map_values(
            |p: (u64, Seq<char>)| p.1,
        ));
    }
    while ranked.len() > 0
        invariant
            0 <= k2 <= sortedm.len(),
            pairs_model(ranked@) =~= sortedm.subrange(k2, sortedm.len() as int),
            strings_model(out@) =~= sortedm.subrange(0, k2).map_values(
                |p: (u64, Seq<char>)| p.1,
            ),
        decreases ranked@.len(),
    {
        let ghost before = ranked@;
        let p = ranked.remove(0);
        proof {
            assert(ranked@ =~= before.drop_first());
            assert(pairs_model(before) == seq![(before[0].0, before[0].1@)] + pairs_model(
                ranked@,
            ));
            assert(pairs_model(before)[0] == (p.0, p.1@));
            assert(sortedm.subrange(k2, sortedm.len() as int)[0] == sortedm[k2]);
            assert((p.0, p.1@) == sortedm[k2]);
            assert(pairs_model(ranked@) =~= pairs_model(before).drop_first());
            assert(sortedm.subrange(k2, sortedm.len() as int).drop_first() =~= sortedm.subrange(
                k2 + 1,
                sortedm.len() as int,
            ));
            lemma_strings_model_push(out@, p.1@);
        }
        let ghost out_before = out@;
        out.push(p.1);
        proof {
            assert(strings_model(out@) =~= strings_model(out_before).push(sortedm[k2].1));
            assert(sortedm.subrange(0, k2 + 1).map_values(|q: (u64, Seq<char>)| q.1)
                =~= sortedm.subrange(0, k2).map_values(|q: (u64, Seq<char>)| q.1).push(
                sortedm[k2].1,
            ));
            k2 = k2 + 1;
        }
    }
    proof {
        assert(sortedm.subrange(0, sortedm.len() as int) =~= sortedm);
        assert(strings_model(out@) =~= sortedm.map_values(|p: (u64, Seq<char>)| p.1));
        assert(close_pairs(unknown@, cm).len() == all.len());
        assert(all.len() > 0);
        let i0 = choose|i: int| 0 <= i < cm.len() && is_close(unknown@, #[trigger] cm[i]);
        assert(cm[i0] == candidates@[i0]@);
        assert(is_close(unknown@, candidates@[i0]@));
    }
    Some(out)
}

proof fn lemma_strings_model_push(s: Seq<String>, c: Seq<char>)
    ensures
        forall|x: String| x@ == c ==> strings_model(s.push(x)) =~= strings_model(s).push(c),
    decreases s.len(),
{
    assert forall|x: String| x@ == c implies strings_model(s.push(x)) =~= strings_model(s).push(
        c,
    ) by {
        lemma_strings_model_push_one(s, x);
    }
}

proof fn lemma_strings_model_push_one(s: Seq<String>, x: String)
    ensures
        strings_model(s.push(x)) =~= strings_model(s).push(x@),
    decreases s.len(),
{
    if s.len() == 0 {
        assert(s.push(x).drop_first() =~= Seq::<String>::empty());
        assert(s.push(x)[0] == x);
        assert(strings_model(s.push(x)) == seq![s.push(x)[0]@] + strings_model(
            s.push(x).drop_first(),
        ));
        assert(strings_model(s.push(x).drop_first()) =~= Seq::<Seq<char>>::empty());
        assert(strings_model(s) =~= Seq::<Seq<char>>::empty());
        assert(strings_model(s.push(x)) =~= strings_model(s).push(x@));
    } else {
        lemma_strings_model_push_one(s.drop_first(), x);
        assert(s.push(x).drop_first() =~= s.drop_first().push(x));
        assert(s.push(x)[0] == s[0]);
        let h = seq![s[0]@];
        let t = strings_model(s.drop_first());
        let m = x@;
        assert(strings_model(s.push(x)) == h + strings_model(s.drop_first().push(x)));
        assert(strings_model(s.push(x)) =~= h + t.push(m));
        assert(strings_model(s) == h + t);
        assert((h + t).push(m) =~= h + t.push(m));
        assert(strings_model(s.push(x)) =~= strings_model(s).push(m));
    }
}

} // verus!
