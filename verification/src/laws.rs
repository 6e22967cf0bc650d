use vstd::prelude::*;
use crate::merge::merge_all;
use crate::merge::merge_entry;
use crate::node::NodeData;
use crate::node::flat_entries;
use crate::node::full_key;
use crate::outside::lower_of;
use crate::outside::upper_of;

verus! {

/// Every flattened name that a table under an ancestor prefix produces —
/// ordinary entries and the key of an unsupported-leaf report alike —
/// extends that prefix with an underscore: nested tables flatten to
/// underscore-joined names.
pub proof fn lemma_flat_keys_extend_prefix(p: Seq<char>, es: Seq<(Seq<char>, NodeData)>, i: int)
    ensures
        (match flat_entries(Option::Some(p), es, i) {
            Result::Ok(fs) => forall|j: int|
                0 <= j < fs.len() ==> (#[trigger] fs[j]).0.len() > p.len() && fs[j].0.take(
                    p.len() + 1 as int,
                ) == p + seq!['_'],
            Result::Err(e) => e.0.len() > p.len() && e.0.take(p.len() + 1 as int) == p + seq!['_'],
        }),
    decreases es, es.len() - i,
{
    if 0 <= i < es.len() {
        let fk = full_key(Option::Some(p), es[i].0);
        assert(fk.take(p.len() + 1 as int) =~= p + seq!['_']);
        match es[i].1 {
            NodeData::Table(t) => {
                lemma_flat_keys_extend_prefix(fk, t, 0);
                match flat_entries(Option::Some(fk), t, 0) {
                    Result::Ok(hs) => {
                        assert forall|j: int| 0 <= j < hs.len() implies (#[trigger] hs[j]).0.len()
                            > p.len() && hs[j].0.take(p.len() + 1 as int) == p + seq!['_'] by {
                            let key = hs[j].0;
                            assert(key.take(p.len() + 1 as int) =~= key.take(fk.len() + 1 as int).take(
                                p.len() + 1 as int,
                            ));
                            assert((fk + seq!['_']).take(p.len() + 1 as int) =~= p + seq!['_']);
                        }
                    },
                    Result::Err(e) => {
                        assert(e.0.take(p.len() + 1 as int) =~= e.0.take(fk.len() + 1 as int).take(p.len() + 1 as int));
                        assert((fk + seq!['_']).take(p.len() + 1 as int) =~= p + seq!['_']);
                    },
                }
            },
            _ => {
            },
        }
        lemma_flat_keys_extend_prefix(p, es, i + 1);
        match flat_entries(Option::Some(p), es, i) {
            Result::Ok(fs) => {
                assert forall|j: int| 0 <= j < fs.len() implies (#[trigger] fs[j]).0.len()
                    > p.len() && fs[j].0.take(p.len() + 1 as int) == p + seq!['_'] by {
                    match (es[i].1, flat_entries(Option::Some(p), es, i + 1)) {
                        (NodeData::Table(t), Result::Ok(rest)) => {
                            match flat_entries(Option::Some(fk), t, 0) {
                                Result::Ok(hs) => {
                                    if j < hs.len() {
                                        assert(fs[j] == hs[j]);
                                    } else {
                                        assert(fs[j] == rest[j - hs.len()]);
                                    }
                                },
                                Result::Err(_) => {},
                            }
                        },
                        (_, Result::Ok(rest)) => {
                            if j >= 1 {
                                assert(fs[j] == rest[j - 1]);
                            }
                        },
                        _ => {},
                    }
                }
            },
            Result::Err(_) => {
            },
        }
    }
}

/// No entry's key folds to the same spelling in both cases, and no two
/// entries' keys collide in any case variant. Documents whose keys carry
/// at least one cased letter and do not collide after flattening satisfy
/// this; the laws below hold under it. `load_str` and `from_str` leave
/// behind exactly `merge_all` of the parsed document's flattening, so
/// each law reads off the environment a load leaves.
pub open spec fn variants_distinct(es: Seq<(Seq<char>, Seq<char>)>) -> bool {
    (forall|i: int| 0 <= i < es.len() ==> lower_of(#[trigger] es[i].0) != upper_of(es[i].0))
        && (forall|i: int, j: int|
        0 <= i < es.len() && 0 <= j < es.len() && i != j ==> upper_of(#[trigger] es[j].0)
            != lower_of(#[trigger] es[i].0) && upper_of(es[j].0) != upper_of(es[i].0))
}

proof fn lemma_variants_distinct_drop(es: Seq<(Seq<char>, Seq<char>)>)
    requires
        es.len() > 0,
    ensures
        variants_distinct(es) ==> variants_distinct(es.drop_first()),
{
    if variants_distinct(es) {
        let rest = es.drop_first();
        assert forall|i: int| 0 <= i < rest.len() implies lower_of(#[trigger] rest[i].0)
            != upper_of(rest[i].0) by {
            assert(rest[i] == es[i + 1]);
        }
        assert forall|i: int, j: int|
            0 <= i < rest.len() && 0 <= j < rest.len() && i != j implies upper_of(
            #[trigger] rest[j].0,
        ) != lower_of(#[trigger] rest[i].0) && upper_of(rest[j].0) != upper_of(rest[i].0) by {
            assert(rest[i] == es[i + 1]);
            assert(rest[j] == es[j + 1]);
        }
    }
}

/// Reconciling one entry touches at most the uppercase spelling of its
/// key: every other variable keeps its presence and its value.
pub proof fn lemma_merge_entry_footprint(
    env: Map<Seq<char>, Seq<char>>,
    k: Seq<char>,
    v: Seq<char>,
    w: Seq<char>,
)
    ensures
        w != upper_of(k) ==> (merge_entry(env, k, v).contains_key(w) == env.contains_key(w) && (
        env.contains_key(w) ==> merge_entry(env, k, v)[w] == env[w])),
{
}

/// Reconciling a list of entries leaves every variable untouched whose
/// name is not the uppercase spelling of any entry's key.
pub proof fn lemma_merge_all_preserves(
    env: Map<Seq<char>, Seq<char>>,
    es: Seq<(Seq<char>, Seq<char>)>,
    w: Seq<char>,
)
    ensures
        (forall|j: int| 0 <= j < es.len() ==> upper_of(#[trigger] es[j].0) != w) ==> (merge_all(
            env,
            es,
        ).contains_key(w) == env.contains_key(w) && (env.contains_key(w) ==> merge_all(env, es)[w]
            == env[w])),
    decreases es.len(),
{
    if es.len() > 0 && (forall|j: int| 0 <= j < es.len() ==> upper_of(#[trigger] es[j].0) != w) {
        let env1 = merge_entry(env, es[0].0, es[0].1);
        let rest = es.drop_first();
        lemma_merge_entry_footprint(env, es[0].0, es[0].1, w);
        assert forall|j: int| 0 <= j < rest.len() implies upper_of(#[trigger] rest[j].0) != w by {
            assert(rest[j] == es[j + 1]);
        }
        lemma_merge_all_preserves(env1, rest, w);
    }
}

/// When neither case of a key exists beforehand and the flattened keys'
/// case variants are distinct, the file value ends up under the
/// uppercase spelling, and the lowercase spelling stays absent.
pub proof fn lemma_fresh_key_takes_file_value(
    env: Map<Seq<char>, Seq<char>>,
    es: Seq<(Seq<char>, Seq<char>)>,
    i: int,
)
    ensures
        (variants_distinct(es) && 0 <= i < es.len() && !env.contains_key(lower_of(es[i].0))
            && !env.contains_key(upper_of(es[i].0))) ==> (merge_all(env, es).contains_key(
            upper_of(es[i].0),
        ) && merge_all(env, es)[upper_of(es[i].0)] == es[i].1 && !merge_all(env, es).contains_key(
            lower_of(es[i].0),
        )),
    decreases es.len(),
{
    if variants_distinct(es) && 0 <= i < es.len() && !env.contains_key(lower_of(es[i].0))
        && !env.contains_key(upper_of(es[i].0)) {
        let env1 = merge_entry(env, es[0].0, es[0].1);
        let rest = es.drop_first();
        lemma_variants_distinct_drop(es);
        if i == 0 {
            assert(env1 == env.insert(upper_of(es[0].0), es[0].1));
            assert forall|j: int| 0 <= j < rest.len() implies upper_of(#[trigger] rest[j].0)
                != upper_of(es[0].0) by {
                assert(rest[j] == es[j + 1]);
            }
            assert forall|j: int| 0 <= j < rest.len() implies upper_of(#[trigger] rest[j].0)
                != lower_of(es[0].0) by {
                assert(rest[j] == es[j + 1]);
            }
            lemma_merge_all_preserves(env1, rest, upper_of(es[0].0));
            lemma_merge_all_preserves(env1, rest, lower_of(es[0].0));
        } else {
            lemma_merge_entry_footprint(env, es[0].0, es[0].1, lower_of(es[i].0));
            lemma_merge_entry_footprint(env, es[0].0, es[0].1, upper_of(es[i].0));
            lemma_fresh_key_takes_file_value(env1, rest, i - 1);
            assert(rest[i - 1] == es[i]);
        }
    }
}

/// When only the lowercase spelling of a key exists beforehand, it keeps
/// its value and the uppercase spelling stays absent: the environment
/// wins over the file value.
pub proof fn lemma_lower_env_wins(
    env: Map<Seq<char>, Seq<char>>,
    es: Seq<(Seq<char>, Seq<char>)>,
    i: int,
)
    ensures
        (variants_distinct(es) && 0 <= i < es.len() && env.contains_key(lower_of(es[i].0))
            && !env.contains_key(upper_of(es[i].0))) ==> (merge_all(env, es).contains_key(
            lower_of(es[i].0),
        ) && merge_all(env, es)[lower_of(es[i].0)] == env[lower_of(es[i].0)] && !merge_all(
            env,
            es,
        ).contains_key(upper_of(es[i].0))),
    decreases es.len(),
{
    if variants_distinct(es) && 0 <= i < es.len() && env.contains_key(lower_of(es[i].0))
        && !env.contains_key(upper_of(es[i].0)) {
        let env1 = merge_entry(env, es[0].0, es[0].1);
        let rest = es.drop_first();
        lemma_variants_distinct_drop(es);
        if i == 0 {
            assert(env1 == env);
            assert forall|j: int| 0 <= j < rest.len() implies upper_of(#[trigger] rest[j].0)
                != lower_of(es[0].0) by {
                assert(rest[j] == es[j + 1]);
            }
            assert forall|j: int| 0 <= j < rest.len() implies upper_of(#[trigger] rest[j].0)
                != upper_of(es[0].0) by {
                assert(rest[j] == es[j + 1]);
            }
            lemma_merge_all_preserves(env1, rest, lower_of(es[0].0));
            lemma_merge_all_preserves(env1, rest, upper_of(es[0].0));
        } else {
            lemma_merge_entry_footprint(env, es[0].0, es[0].1, lower_of(es[i].0));
            lemma_merge_entry_footprint(env, es[0].0, es[0].1, upper_of(es[i].0));
            lemma_lower_env_wins(env1, rest, i - 1);
            assert(rest[i - 1] == es[i]);
        }
    }
}

/// When only the uppercase spelling of a key exists beforehand, it keeps
/// its value and the lowercase spelling stays absent: the environment
/// wins over the file value.
pub proof fn lemma_upper_env_wins(
    env: Map<Seq<char>, Seq<char>>,
    es: Seq<(Seq<char>, Seq<char>)>,
    i: int,
)
    ensures
        (variants_distinct(es) && 0 <= i < es.len() && !env.contains_key(lower_of(es[i].0))
            && env.contains_key(upper_of(es[i].0))) ==> (merge_all(env, es).contains_key(
            upper_of(es[i].0),
        ) && merge_all(env, es)[upper_of(es[i].0)] == env[upper_of(es[i].0)] && !merge_all(
            env,
            es,
        ).contains_key(lower_of(es[i].0))),
    decreases es.len(),
{
    if variants_distinct(es) && 0 <= i < es.len() && !env.contains_key(lower_of(es[i].0))
        && env.contains_key(upper_of(es[i].0)) {
        let env1 = merge_entry(env, es[0].0, es[0].1);
        let rest = es.drop_first();
        lemma_variants_distinct_drop(es);
        if i == 0 {
            assert(env1 == env);
            assert forall|j: int| 0 <= j < rest.len() implies upper_of(#[trigger] rest[j].0)
                != lower_of(es[0].0) by {
                assert(rest[j] == es[j + 1]);
            }
            assert forall|j: int| 0 <= j < rest.len() implies upper_of(#[trigger] rest[j].0)
                != upper_of(es[0].0) by {
                assert(rest[j] == es[j + 1]);
            }
            lemma_merge_all_preserves(env1, rest, lower_of(es[0].0));
            lemma_merge_all_preserves(env1, rest, upper_of(es[0].0));
        } else {
            lemma_merge_entry_footprint(env, es[0].0, es[0].1, lower_of(es[i].0));
            lemma_merge_entry_footprint(env, es[0].0, es[0].1, upper_of(es[i].0));
            lemma_upper_env_wins(env1, rest, i - 1);
            assert(rest[i - 1] == es[i]);
        }
    }
}

/// When both cases of a key exist beforehand, the lowercase entry keeps
/// its value and the uppercase entry is removed.
pub proof fn lemma_both_cases_lower_wins(
    env: Map<Seq<char>, Seq<char>>,
    es: Seq<(Seq<char>, Seq<char>)>,
    i: int,
)
    ensures
        (variants_distinct(es) && 0 <= i < es.len() && env.contains_key(lower_of(es[i].0))
            && env.contains_key(upper_of(es[i].0))) ==> (merge_all(env, es).contains_key(
            lower_of(es[i].0),
        ) && merge_all(env, es)[lower_of(es[i].0)] == env[lower_of(es[i].0)] && !merge_all(
            env,
            es,
        ).contains_key(upper_of(es[i].0))),
    decreases es.len(),
{
    if variants_distinct(es) && 0 <= i < es.len() && env.contains_key(lower_of(es[i].0))
        && env.contains_key(upper_of(es[i].0)) {
        let env1 = merge_entry(env, es[0].0, es[0].1);
        let rest = es.drop_first();
        lemma_variants_distinct_drop(es);
        if i == 0 {
            assert(env1 == env.remove(upper_of(es[0].0)));
            assert forall|j: int| 0 <= j < rest.len() implies upper_of(#[trigger] rest[j].0)
                != lower_of(es[0].0) by {
                assert(rest[j] == es[j + 1]);
            }
            assert forall|j: int| 0 <= j < rest.len() implies upper_of(#[trigger] rest[j].0)
                != upper_of(es[0].0) by {
                assert(rest[j] == es[j + 1]);
            }
            lemma_merge_all_preserves(env1, rest, lower_of(es[0].0));
            lemma_merge_all_preserves(env1, rest, upper_of(es[0].0));
        } else {
            lemma_merge_entry_footprint(env, es[0].0, es[0].1, lower_of(es[i].0));
            lemma_merge_entry_footprint(env, es[0].0, es[0].1, upper_of(es[i].0));
            lemma_both_cases_lower_wins(env1, rest, i - 1);
            assert(rest[i - 1] == es[i]);
        }
    }
}

/// Reconciling the same entries twice leaves the environment exactly
/// where the first pass left it: a second load of the same document
/// changes nothing.
pub proof fn lemma_merge_idempotent(env: Map<Seq<char>, Seq<char>>, es: Seq<(Seq<char>, Seq<char>)>)
    ensures
        variants_distinct(es) ==> merge_all(merge_all(env, es), es) == merge_all(env, es),
    decreases es.len(),
{
    if variants_distinct(es) && es.len() > 0 {
        let lk = lower_of(es[0].0);
        let uk = upper_of(es[0].0);
        let env1 = merge_entry(env, es[0].0, es[0].1);
        let rest = es.drop_first();
        lemma_variants_distinct_drop(es);
        let f = merge_all(env1, rest);
        lemma_merge_idempotent(env1, rest);
        assert(env1.contains_key(lk) != env1.contains_key(uk));
        assert forall|j: int| 0 <= j < rest.len() implies upper_of(#[trigger] rest[j].0) != lk by {
            assert(rest[j] == es[j + 1]);
        }
        assert forall|j: int| 0 <= j < rest.len() implies upper_of(#[trigger] rest[j].0) != uk by {
            assert(rest[j] == es[j + 1]);
        }
        lemma_merge_all_preserves(env1, rest, lk);
        lemma_merge_all_preserves(env1, rest, uk);
        assert(f.contains_key(lk) != f.contains_key(uk));
        assert(merge_entry(f, es[0].0, es[0].1) == f);
        assert(merge_all(f, es) == merge_all(f, rest));
    }
}

} // verus!
