use vstd::prelude::*;
use crate::env_map::EnvMap;
use crate::node::pairs_view;
use crate::outside::lower_of;
use crate::outside::upper_of;
use crate::outside::lowercase;
use crate::outside::uppercase;

verus! {

/// The environment after one flattened entry (key `k`, file value `v`) is
/// reconciled with it. A variable that already exists under either case
/// always outranks the file value: when both cases exist, the lowercase
/// entry is kept and the uppercase one removed; when exactly one exists,
/// nothing changes; only when neither exists is `v` written, under the
/// uppercase spelling of `k`.
pub open spec fn merge_entry(
    env: Map<Seq<char>, Seq<char>>,
    k: Seq<char>,
    v: Seq<char>,
) -> Map<Seq<char>, Seq<char>> {
    let lk = lower_of(k);
    let uk = upper_of(k);
    if env.contains_key(lk) && env.contains_key(uk) {
        env.remove(uk)
    } else if env.contains_key(lk) || env.contains_key(uk) {
        env
    } else {
        env.insert(uk, v)
    }
}

/// The environment after a list of flattened entries is reconciled with
/// it in order.
pub open spec fn merge_all(
    env: Map<Seq<char>, Seq<char>>,
    entries: Seq<(Seq<char>, Seq<char>)>,
) -> Map<Seq<char>, Seq<char>>
    decreases entries.len(),
{
    if entries.len() == 0 {
        env
    } else {
        merge_all(merge_entry(env, entries[0].0, entries[0].1), entries.drop_first())
    }
}

/// A diagnostic record: which pre-existing variable outranked the file
/// value for one entry, and what was discarded. Advisory only; it never
/// affects the resulting environment.
#[derive(Debug, Clone, PartialEq, Eq)]
pub enum Diag {
    /// Both cases pre-existed: the lowercase entry won and the uppercase
    /// entry was removed.
    DroppedUpper { lower_key: String, lower_value: String, upper_key: String, upper_value: String },
    /// Only the lowercase entry pre-existed: it won and the file value
    /// was discarded.
    KeptLower { lower_key: String, lower_value: String, file_value: String },
    /// Only the uppercase entry pre-existed: it won and the file value
    /// was discarded.
    KeptUpper { upper_key: String, upper_value: String, file_value: String },
}

/// The mathematical content of a `Diag`.
pub enum DiagData {
    DroppedUpper {
        lower_key: Seq<char>,
        lower_value: Seq<char>,
        upper_key: Seq<char>,
        upper_value: Seq<char>,
    },
    KeptLower { lower_key: Seq<char>, lower_value: Seq<char>, file_value: Seq<char> },
    KeptUpper { upper_key: Seq<char>, upper_value: Seq<char>, file_value: Seq<char> },
}

impl View for Diag {
    type V = DiagData;

    open spec fn view(&self) -> DiagData {
        match self {
            Diag::DroppedUpper { lower_key, lower_value, upper_key, upper_value } =>
                DiagData::DroppedUpper {
                lower_key: lower_key@,
                lower_value: lower_value@,
                upper_key: upper_key@,
                upper_value: upper_value@,
            },
            Diag::KeptLower { lower_key, lower_value, file_value } => DiagData::KeptLower {
                lower_key: lower_key@,
                lower_value: lower_value@,
                file_value: file_value@,
            },
            Diag::KeptUpper { upper_key, upper_value, file_value } => DiagData::KeptUpper {
                upper_key: upper_key@,
                upper_value: upper_value@,
                file_value: file_value@,
            },
        }
    }
}

/// The diagnostic that reconciling one entry emits, if any.
pub open spec fn entry_diag(env: Map<Seq<char>, Seq<char>>, k: Seq<char>, v: Seq<char>) -> Option<
    DiagData,
> {
    let lk = lower_of(k);
    let uk = upper_of(k);
    if env.contains_key(lk) && env.contains_key(uk) {
        Option::Some(
            DiagData::DroppedUpper {
                lower_key: lk,
                lower_value: env[lk],
                upper_key: uk,
                upper_value: env[uk],
            },
        )
    } else if env.contains_key(lk) {
        Option::Some(DiagData::KeptLower { lower_key: lk, lower_value: env[lk], file_value: v })
    } else if env.contains_key(uk) {
        Option::Some(DiagData::KeptUpper { upper_key: uk, upper_value: env[uk], file_value: v })
    } else {
        Option::None
    }
}

/// The diagnostics that reconciling a list of entries emits, in order.
pub open spec fn merge_diags(
    env: Map<Seq<char>, Seq<char>>,
    entries: Seq<(Seq<char>, Seq<char>)>,
) -> Seq<DiagData>
    decreases entries.len(),
{
    if entries.len() == 0 {
        Seq::empty()
    } else {
        let rest = merge_diags(
            merge_entry(env, entries[0].0, entries[0].1),
            entries.drop_first(),
        );
        match entry_diag(env, entries[0].0, entries[0].1) {
            Option::Some(d) => seq![d] + rest,
            Option::None => rest,
        }
    }
}

/// The views of a list of diagnostics.
pub open spec fn diags_view(ds: Seq<Diag>) -> Seq<DiagData> {
    ds.map_values(|d: Diag| d@)
}

/// Reconciles one flattened entry with the environment, per the decision
/// table that `merge_entry` states, and reports what was discarded.
pub fn apply_entry(env: &mut EnvMap, key: &String, value: &String) -> (d: Option<Diag>)
    requires
        old(env).wf(),
    ensures
        final(env).wf(),
        final(env)@ == merge_entry(old(env)@, key@, value@),
        (match d {
            Option::Some(dg) => entry_diag(old(env)@, key@, value@) == Option::Some(dg@),
            Option::None => entry_diag(old(env)@, key@, value@) is None,
        }),
{
    let lk: String = lowercase(key);
    let uk: String = uppercase(key);
    let low: Option<String> = match env.get(&lk) {
        Option::Some(v) => Option::Some(v.clone()),
        Option::None => Option::None,
    };
    let up: Option<String> = match env.get(&uk) {
        Option::Some(v) => Option::Some(v.clone()),
        Option::None => Option::None,
    };
    match (low, up) {
        (Option::Some(lval), Option::Some(uval)) => {
            env.remove(&uk);
            Option::Some(
                Diag::DroppedUpper {
                    lower_key: lk,
                    lower_value: lval,
                    upper_key: uk,
                    upper_value: uval,
                },
            )
        },
        (Option::Some(lval), Option::None) => Option::Some(
            Diag::KeptLower { lower_key: lk, lower_value: lval, file_value: value.clone() },
        ),
        (Option::None, Option::Some(uval)) => Option::Some(
            Diag::KeptUpper { upper_key: uk, upper_value: uval, file_value: value.clone() },
        ),
        (Option::None, Option::None) => {
            env.set(&uk, value);
            Option::None
        },
    }
}

/// Reconciles a list of flattened entries with the environment, in order,
/// and returns the diagnostics the walk emitted.
pub fn merge_entries(env: &mut EnvMap, entries: &Vec<(String, String)>) -> (ds: Vec<Diag>)
    requires
        old(env).wf(),
    ensures
        final(env).wf(),
        final(env)@ == merge_all(old(env)@, pairs_view(entries@)),
        diags_view(ds@) == merge_diags(old(env)@, pairs_view(entries@)),
{
    let ghost all = pairs_view(entries@);
    let mut ds: Vec<Diag> = Vec::new();
    let n: usize = entries.len();
    let mut i: usize = 0;
    proof {
        assert(all.skip(0) =~= all);
        assert(diags_view(ds@) =~= Seq::<DiagData>::empty());
        assert(diags_view(ds@) + merge_diags(env@, all) =~= merge_diags(env@, all));
    }
    while i < n
        invariant
            n == entries@.len(),
            i <= n,
            env.wf(),
            all == pairs_view(entries@),
            merge_all(old(env)@, all) == merge_all(env@, all.skip(i as int)),
            merge_diags(old(env)@, all) =~= diags_view(ds@) + merge_diags(
                env@,
                all.skip(i as int),
            ),
        decreases n - i,
    {
        let ghost env0 = env@;
        let ghost ds0 = ds@;
        let d: Option<Diag> = apply_entry(env, &entries[i].0, &entries[i].1);
        proof {
            let sk = all.skip(i as int);
            assert(sk[0] == all[i as int]);
            assert(sk.drop_first() =~= all.skip(i as int + 1));
            assert(merge_all(env0, sk) == merge_all(env@, all.skip(i as int + 1)));
        }
        match d {
            Option::Some(dg) => {
                let ghost dgv = dg@;
                ds.push(dg);
                proof {
                    assert(diags_view(ds@) =~= diags_view(ds0) + seq![dgv]);
                    assert(diags_view(ds0) + (seq![dgv] + merge_diags(env@, all.skip(i as int + 1)))
                        =~= diags_view(ds@) + merge_diags(env@, all.skip(i as int + 1)));
                }
            },
            Option::None => {
            },
        }
        i = i + 1;
    }
    proof {
        assert(all.skip(n as int) =~= Seq::<(Seq<char>, Seq<char>)>::empty());
        assert(diags_view(ds@) + Seq::<DiagData>::empty() =~= diags_view(ds@));
    }
    ds
}

} // verus!
