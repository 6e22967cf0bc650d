use vstd::prelude::*;
use crate::num::int_str;
use crate::num::i64_to_string;

verus! {

/// One node of a parsed configuration document: a string leaf, an integer
/// leaf, a nested table of named children, or a leaf of a kind the
/// flattener does not support, carried as its printed representation.
pub enum Node {
    Str(String),
    Int(i64),
    Table(Vec<(String, Node)>),
    Other(String),
}

/// The mathematical content of a node: character sequences in place of
/// strings, `int` in place of the machine integer.
pub enum NodeData {
    Str(Seq<char>),
    Int(int),
    Table(Seq<(Seq<char>, NodeData)>),
    Other(Seq<char>),
}

/// The content of a node.
pub open spec fn node_data(n: Node) -> NodeData
    decreases n,
{
    match n {
        Node::Str(s) => NodeData::Str(s@),
        Node::Int(v) => NodeData::Int(v as int),
        Node::Table(t) => NodeData::Table(entries_data(t@)),
        Node::Other(d) => NodeData::Other(d@),
    }
}

/// The contents of a table's entries, in order.
pub open spec fn entries_data(es: Seq<(String, Node)>) -> Seq<(Seq<char>, NodeData)>
    decreases es,
{
    if es.len() == 0 {
        Seq::empty()
    } else {
        seq![(es[0].0@, node_data(es[0].1))] + entries_data(es.drop_first())
    }
}

/// `entries_data`, read entry by entry.
pub proof fn lemma_entries_data(es: Seq<(String, Node)>)
    ensures
        entries_data(es).len() == es.len(),
        forall|i: int|
            0 <= i < es.len() ==> #[trigger] entries_data(es)[i] == (
                es[i].0@,
                node_data(es[i].1),
            ),
    decreases es.len(),
{
    if es.len() > 0 {
        lemma_entries_data(es.drop_first());
        assert forall|i: int| 0 <= i < es.len() implies #[trigger] entries_data(es)[i] == (
            es[i].0@,
            node_data(es[i].1),
        ) by {
            if i > 0 {
                assert(entries_data(es)[i] == entries_data(es.drop_first())[i - 1]);
                assert(es.drop_first()[i - 1] == es[i]);
            }
        }
    }
}

/// The flattened name of an entry: the entry's own key at top level, else
/// the ancestor path, an underscore, and the key.
pub open spec fn full_key(prefix: Option<Seq<char>>, k: Seq<char>) -> Seq<char> {
    match prefix {
        Option::None => k,
        Option::Some(p) => p + seq!['_'] + k,
    }
}

pub open spec fn prefix_view(p: Option<&String>) -> Option<Seq<char>> {
    match p {
        Option::None => Option::None,
        Option::Some(s) => Option::Some(s@),
    }
}

/// Joins a flattened result for one entry with the result for the entries
/// after it; the first unsupported leaf wins.
pub open spec fn combine(
    head: Result<Seq<(Seq<char>, Seq<char>)>, (Seq<char>, Seq<char>)>,
    rest: Result<Seq<(Seq<char>, Seq<char>)>, (Seq<char>, Seq<char>)>,
) -> Result<Seq<(Seq<char>, Seq<char>)>, (Seq<char>, Seq<char>)> {
    match head {
        Result::Ok(h) => match rest {
            Result::Ok(rs) => Result::Ok(h + rs),
            Result::Err(e) => Result::Err(e),
        },
        Result::Err(e) => Result::Err(e),
    }
}

/// The flattened (key, value) pairs of the entries of a table from index
/// `i` on, under the given ancestor prefix: string leaves verbatim,
/// integer leaves in decimal, tables recursively under their flattened
/// name; an unsupported leaf stops the walk and reports its flattened key
/// and its representation.
pub open spec fn flat_entries(
    prefix: Option<Seq<char>>,
    es: Seq<(Seq<char>, NodeData)>,
    i: int,
) -> Result<Seq<(Seq<char>, Seq<char>)>, (Seq<char>, Seq<char>)>
    decreases es, es.len() - i,
{
    if i < 0 || i >= es.len() {
        Result::Ok(Seq::empty())
    } else {
        let fk = full_key(prefix, es[i].0);
        let head = match es[i].1 {
            NodeData::Str(s) => Result::Ok(seq![(fk, s)]),
            NodeData::Int(v) => Result::Ok(seq![(fk, int_str(v))]),
            NodeData::Table(t) => flat_entries(Option::Some(fk), t, 0),
            NodeData::Other(d) => Result::Err((fk, d)),
        };
        combine(head, flat_entries(prefix, es, i + 1))
    }
}

/// The flattening of a whole document whose root table has these entries.
pub open spec fn flat_doc(es: Seq<(Seq<char>, NodeData)>) -> Result<
    Seq<(Seq<char>, Seq<char>)>,
    (Seq<char>, Seq<char>),
> {
    flat_entries(Option::None, es, 0)
}

/// The views of a list of flattened pairs.
pub open spec fn pairs_view(v: Seq<(String, String)>) -> Seq<(Seq<char>, Seq<char>)> {
    v.map_values(|p: (String, String)| (p.0@, p.1@))
}

fn join_key(p: &String, k: &String) -> (r: String)
    ensures
        r@ == p@ + seq!['_'] + k@,
{
    let mut r: String = p.clone();
    proof {
        reveal_strlit("_");
    }
    r.append("_");
    r.append(k.as_str());
    proof {
        assert(r@ =~= p@ + seq!['_'] + k@);
    }
    r
}

/// Flattens the entries of one table under the given ancestor prefix,
/// exactly as `flat_entries` describes.
pub fn flatten_entries(prefix: Option<&String>, entries: &Vec<(String, Node)>) -> (r: Result<
    Vec<(String, String)>,
    (String, String),
>)
    ensures
        (match (r, flat_entries(prefix_view(prefix), entries_data(entries@), 0)) {
            (Result::Ok(v), Result::Ok(fs)) => pairs_view(v@) == fs,
            (Result::Err(e), Result::Err(fe)) => e.0@ == fe.0 && e.1@ == fe.1,
            _ => false,
        }),
    decreases entries@,
{
    let ghost pv = prefix_view(prefix);
    let ghost ed = entries_data(entries@);
    let mut out: Vec<(String, String)> = Vec::new();
    let n: usize = entries.len();
    let mut i: usize = 0;
    proof {
        lemma_entries_data(entries@);
        assert(pairs_view(out@) =~= Seq::<(Seq<char>, Seq<char>)>::empty());
        assert(combine(Result::Ok(pairs_view(out@)), flat_entries(pv, ed, 0)) == flat_entries(
            pv,
            ed,
            0,
        )) by {
            match flat_entries(pv, ed, 0) {
                Result::Ok(fs) => {
                    assert(pairs_view(out@) + fs =~= fs);
                },
                Result::Err(_) => {},
            }
        }
    }
    while i < n
        invariant
            n == entries@.len(),
            i <= n,
            pv == prefix_view(prefix),
            ed == entries_data(entries@),
            flat_entries(pv, ed, 0) == combine(
                Result::Ok(pairs_view(out@)),
                flat_entries(pv, ed, i as int),
            ),
        decreases n - i,
    {
        proof {
            lemma_entries_data(entries@);
        }
        let ghost out0 = out@;
        let key: &String = &entries[i].0;
        let fk: String = match prefix {
            Option::None => key.clone(),
            Option::Some(p) => join_key(p, key),
        };
        proof {
            assert(ed[i as int] == (entries@[i as int].0@, node_data(entries@[i as int].1)));
            assert(fk@ == full_key(pv, ed[i as int].0));
        }
        let ghost head = match ed[i as int].1 {
            NodeData::Str(s) => Result::<Seq<(Seq<char>, Seq<char>)>, (Seq<char>, Seq<char>)>::Ok(
                seq![(fk@, s)],
            ),
            NodeData::Int(v) => Result::Ok(seq![(fk@, int_str(v))]),
            NodeData::Table(t) => flat_entries(Option::Some(fk@), t, 0),
            NodeData::Other(d) => Result::Err((fk@, d)),
        };
        proof {
            assert(flat_entries(pv, ed, i as int) == combine(
                head,
                flat_entries(pv, ed, i as int + 1),
            ));
        }
        match &entries[i].1 {
            Node::Str(s) => {
                proof {
                    assert(node_data(entries@[i as int].1) == NodeData::Str(s@));
                }
                out.push((fk, s.clone()));
                proof {
                    assert(pairs_view(out@) =~= pairs_view(out0) + seq![
                        (fk@, entries@[i as int].1->Str_0@),
                    ]);
                }
            },
            Node::Int(v) => {
                proof {
                    assert(node_data(entries@[i as int].1) == NodeData::Int(*v as int));
                }
                let rendered: String = i64_to_string(*v);
                out.push((fk, rendered));
                proof {
                    assert(pairs_view(out@) =~= pairs_view(out0) + seq![
                        (fk@, int_str(entries@[i as int].1->Int_0 as int)),
                    ]);
                }
            },
            Node::Other(d) => {
                proof {
                    assert(node_data(entries@[i as int].1) == NodeData::Other(d@));
                }
                return Result::Err((fk, d.clone()));
            },
            Node::Table(t) => {
                proof {
                    assert(node_data(entries@[i as int].1) == NodeData::Table(entries_data(t@)));
                }
                match flatten_entries(Option::Some(&fk), t) {
                    Result::Ok(mut sub) => {
                        let ghost subv = sub@;
                        out.append(&mut sub);
                        proof {
                            assert(pairs_view(out@) =~= pairs_view(out0) + pairs_view(subv));
                        }
                    },
                    Result::Err(e) => {
                        return Result::Err(e);
                    },
                }
            },
        }
        proof {
            match head {
                Result::Ok(hs) => {
                    assert(pairs_view(out@) =~= pairs_view(out0) + hs);
                    assert(combine(Result::Ok(pairs_view(out0)), flat_entries(pv, ed, i as int))
                        == combine(Result::Ok(pairs_view(out@)), flat_entries(pv, ed, i as int + 1)))
                        by {
                        match flat_entries(pv, ed, i as int + 1) {
                            Result::Ok(rest) => {
                                assert(pairs_view(out0) + (hs + rest) =~= pairs_view(out@) + rest);
                            },
                            Result::Err(_) => {},
                        }
                    }
                },
                Result::Err(_) => {
                    assert(false);
                },
            }
        }
        i = i + 1;
    }
    proof {
        lemma_entries_data(entries@);
        assert(flat_entries(pv, ed, n as int) == Result::<
            Seq<(Seq<char>, Seq<char>)>,
            (Seq<char>, Seq<char>),
        >::Ok(Seq::empty()));
        match flat_entries(pv, ed, 0) {
            Result::Ok(fs) => {
                assert(pairs_view(out@) + Seq::<(Seq<char>, Seq<char>)>::empty() =~= pairs_view(
                    out@,
                ));
            },
            Result::Err(_) => {},
        }
    }
    Result::Ok(out)
}

} // verus!
