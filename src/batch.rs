//! The batch evaluator: for each query, the fetched value is walked by the
//! query's path, checked against its assertion, and recorded as attributes.

use vstd::prelude::*;
use crate::compare::{assert_spec, assert_value};
use crate::error::{ContractError, Failure};
use crate::msg::{operator_name, AssertInfo, PathKey, QueryToAssert};
use crate::path::{get_value_by_path, trace, walk};
use crate::render::{convert_value_to_string, render};
use crate::text::{decimal_digits, push_decimal, push_str};
use crate::value::{well_formed, Value};

verus! {

/// One line of the transcript of a successful batch.
#[derive(Clone, Debug)]
pub struct Attribute {
    pub key: String,
    pub value: String,
}

/// A transcript seen as pairs of character sequences.
pub open spec fn attrs_view(a: Seq<Attribute>) -> Seq<(Seq<char>, Seq<char>)> {
    a.map_values(|x: Attribute| (x.key@, x.value@))
}

/// The key of attribute `suffix` of query `i`: `query_{i}{suffix}`.
pub open spec fn attr_key(i: nat, suffix: Seq<char>) -> Seq<char> {
    "query_"@ + decimal_digits(i) + suffix
}

/// A fetched value, where the fetch succeeded, is well formed.
pub open spec fn fetched_well_formed(f: Result<Value, String>) -> bool {
    match f {
        Ok(v) => well_formed(v),
        Err(_) => true,
    }
}

/// A fetch outcome seen through its error text.
pub open spec fn fetched_view(f: Result<Value, String>) -> Result<Value, Seq<char>> {
    match f {
        Ok(v) => Ok(v),
        Err(m) => Err(m@),
    }
}

/// What the attributes of query `i` after its request are, or the error it
/// fails with: the key path where a path is given, then the value, and where
/// an assertion is given, the expected literal and the operator.
pub open spec fn query_body(
    i: nat,
    fetched: Result<Value, Seq<char>>,
    path: Option<Seq<PathKey>>,
    assertion: Option<AssertInfo>,
) -> Result<Seq<(Seq<char>, Seq<char>)>, Failure> {
    match fetched {
        Err(m) => Err(Failure::Std { message: m }),
        Ok(v) => {
            let reached = match path {
                None => Ok(v),
                Some(keys) => walk(v, keys),
            };
            let path_attrs = match path {
                None => Seq::empty(),
                Some(keys) => seq![(attr_key(i, "_key_path"@), trace(keys))],
            };
            match reached {
                Err(e) => Err(e),
                Ok(w) => match assertion {
                    Some(info) => match assert_spec(w, info) {
                        Err(e) => Err(e),
                        Ok((s, c)) => Ok(
                            path_attrs + seq![
                                (attr_key(i, "_value"@), s),
                                (attr_key(i, "_compare"@), c),
                                (attr_key(i, "_operator"@), operator_name(info.operator)),
                            ],
                        ),
                    },
                    None => match render(w) {
                        None => Err(Failure::UnsupportedType),
                        Some(s) => Ok(path_attrs + seq![(attr_key(i, "_value"@), s)]),
                    },
                },
            }
        },
    }
}

/// What the attributes of query `i` are, its request described by `req`.
pub open spec fn query_spec(
    i: nat,
    req: Seq<char>,
    fetched: Result<Value, Seq<char>>,
    path: Option<Seq<PathKey>>,
    assertion: Option<AssertInfo>,
) -> Result<Seq<(Seq<char>, Seq<char>)>, Failure> {
    match query_body(i, fetched, path, assertion) {
        Ok(b) => Ok(seq![(attr_key(i, "_request"@), req)] + b),
        Err(e) => Err(e),
    }
}

pub open spec fn path_view(p: Option<Vec<PathKey>>) -> Option<Seq<PathKey>> {
    match p {
        Some(keys) => Some(keys@),
        None => None,
    }
}

fn key_of(i: usize, suffix: &str) -> (r: String)
    ensures
        r@ == attr_key(i as nat, suffix@),
{
    let mut key = String::from_str("query_");
    push_decimal(&mut key, i as u128);
    push_str(&mut key, suffix);
    proof {
        reveal_strlit("query_");
        assert(key@ =~= attr_key(i as nat, suffix@));
    }
    key
}

/// Evaluates query `i` on the outcome of its fetch: the request as
/// `request_text`, then the key path, the value and the assertion's
/// literal and operator, each where it applies; or the first error met.
pub fn evaluate_query(
    i: usize,
    request_text: String,
    fetched: Result<Value, String>,
    path_key: Option<Vec<PathKey>>,
    assert_with: Option<AssertInfo>,
) -> (r: Result<Vec<Attribute>, ContractError>)
    requires
        fetched_well_formed(fetched),
    ensures
        match r {
            Ok(a) => query_spec(
                i as nat,
                request_text@,
                fetched_view(fetched),
                path_view(path_key),
                assert_with,
            ) == Ok::<Seq<(Seq<char>, Seq<char>)>, Failure>(attrs_view(a@)),
            Err(e) => query_spec(
                i as nat,
                request_text@,
                fetched_view(fetched),
                path_view(path_key),
                assert_with,
            ) == Err::<Seq<(Seq<char>, Seq<char>)>, Failure>(e@),
        },
{
    proof {
        reveal_strlit("_request");
        reveal_strlit("_key_path");
        reveal_strlit("_value");
        reveal_strlit("_compare");
        reveal_strlit("_operator");
    }
    let mut value = match fetched {
        Ok(v) => v,
        Err(message) => {
            return Err(ContractError::Std { message });
        },
    };
    let ghost v0 = value;
    let mut attributes: Vec<Attribute> = Vec::new();
    attributes.push(Attribute { key: key_of(i, "_request"), value: request_text });
    let ghost path_attrs: Seq<(Seq<char>, Seq<char>)> = Seq::empty();
    match path_key {
        Some(keys) => {
            let ghost k = keys@;
            match get_value_by_path(value, keys) {
                Ok((w, t)) => {
                    value = w;
                    let att = Attribute { key: key_of(i, "_key_path"), value: t };
                    proof {
                        path_attrs = seq![(att.key@, att.value@)];
                    }
                    attributes.push(att);
                },
                Err(e) => {
                    return Err(e);
                },
            }
        },
        None => {},
    }
    proof {
        assert(attrs_view(attributes@) =~= seq![(attr_key(i as nat, "_request"@), request_text@)]
            + path_attrs);
    }
    let ghost before = attrs_view(attributes@);
    match assert_with {
        Some(info) => {
            let op = info.operator;
            match assert_value(value, info) {
                Ok((s, c)) => {
                    attributes.push(Attribute { key: key_of(i, "_value"), value: s });
                    attributes.push(Attribute { key: key_of(i, "_compare"), value: c });
                    attributes.push(Attribute { key: key_of(i, "_operator"), value: op.to_string() });
                    proof {
                        assert(attrs_view(attributes@) =~= before + seq![
                            (attr_key(i as nat, "_value"@), s@),
                            (attr_key(i as nat, "_compare"@), c@),
                            (attr_key(i as nat, "_operator"@), operator_name(op)),
                        ]);
                    }
                },
                Err(e) => {
                    return Err(e);
                },
            }
        },
        None => {
            match convert_value_to_string(value) {
                Ok(s) => {
                    attributes.push(Attribute { key: key_of(i, "_value"), value: s });
                    proof {
                        assert(attrs_view(attributes@) =~= before + seq![
                            (attr_key(i as nat, "_value"@), s@),
                        ]);
                    }
                },
                Err(e) => {
                    return Err(e);
                },
            }
        },
    }
    proof {
        let body = query_body(i as nat, fetched_view(fetched), path_view(path_key), assert_with);
        assert(attrs_view(attributes@) =~= seq![(attr_key(i as nat, "_request"@), request_text@)]
            + body->Ok_0);
    }
    Ok(attributes)
}

/// Relies on the `Debug` formatting of `cosmwasm_std::QueryRequest`, to
/// describe a request in the transcript.
#[verifier::external_body]
fn describe_request(request: &cosmwasm_std::QueryRequest<cosmwasm_std::Empty>) -> (r: String) {
    format!("{:?}", request)
}

/// What the attributes of `q` after its request are, as query `i`.
pub open spec fn body_of(i: nat, q: (QueryToAssert, Result<Value, String>)) -> Result<
    Seq<(Seq<char>, Seq<char>)>,
    Failure,
> {
    query_body(i, fetched_view(q.1), path_view(q.0.path_key), q.0.assert_with)
}

/// The outcome of a batch: the error of its first failing query, if any.
pub open spec fn batch_outcome(qs: Seq<(QueryToAssert, Result<Value, String>)>) -> Result<(), Failure>
    decreases qs.len(),
{
    if qs.len() == 0 {
        Ok(())
    } else {
        match batch_outcome(qs.drop_last()) {
            Err(e) => Err(e),
            Ok(_) => match body_of((qs.len() - 1) as nat, qs.last()) {
                Ok(_) => Ok(()),
                Err(e) => Err(e),
            },
        }
    }
}

/// The transcript of a batch whose queries all succeed, the request of query
/// `i` described by `reqs[i]`.
pub open spec fn batch_attrs(
    qs: Seq<(QueryToAssert, Result<Value, String>)>,
    reqs: Seq<Seq<char>>,
) -> Seq<(Seq<char>, Seq<char>)>
    decreases qs.len(),
{
    if qs.len() == 0 {
        Seq::empty()
    } else {
        let i = (qs.len() - 1) as nat;
        batch_attrs(qs.drop_last(), reqs.drop_last()) + seq![(attr_key(i, "_request"@), reqs.last())]
            + body_of(i, qs.last())->Ok_0
    }
}

/// Evaluates query `i` of a batch on the outcome of its fetch. The first
/// attribute describes the request; the rest, or the error, are as
/// `query_body` says.
pub fn run_query(i: usize, query: QueryToAssert, fetched: Result<Value, String>) -> (r: Result<
    Vec<Attribute>,
    ContractError,
>)
    requires
        fetched_well_formed(fetched),
    ensures
        match r {
            Ok(a) => {
                &&& a@.len() > 0
                &&& a@[0].key@ == attr_key(i as nat, "_request"@)
                &&& body_of(i as nat, (query, fetched)) == Ok::<
                    Seq<(Seq<char>, Seq<char>)>,
                    Failure,
                >(attrs_view(a@).drop_first())
            },
            Err(e) => body_of(i as nat, (query, fetched)) == Err::<
                Seq<(Seq<char>, Seq<char>)>,
                Failure,
            >(e@),
        },
{
    let request_text = describe_request(&query.request);
    let r = evaluate_query(i, request_text, fetched, query.path_key, query.assert_with);
    proof {
        if r is Ok {
            let a = r->Ok_0;
            let body = body_of(i as nat, (query, fetched));
            assert(body is Ok);
            let head = seq![(attr_key(i as nat, "_request"@), request_text@)];
            assert(attrs_view(a@) == head + body->Ok_0);
            assert(attrs_view(a@).len() == a@.len());
            assert(attrs_view(a@)[0] == (a@[0].key@, a@[0].value@));
            assert(attrs_view(a@).drop_first() =~= body->Ok_0);
        }
    }
    r
}

/// Evaluates a batch of queries, each with the outcome of its fetch, in
/// order. The first failing query makes the whole batch fail with its error,
/// and then no attribute is returned; otherwise the transcripts of all the
/// queries are returned, one after the other.
#[verifier::rlimit(60)]
pub fn run_queries(answered: Vec<(QueryToAssert, Result<Value, String>)>) -> (r: Result<
    Vec<Attribute>,
    ContractError,
>)
    requires
        forall|i: int| 0 <= i < answered@.len() ==> fetched_well_formed(#[trigger] answered@[i].1),
    ensures
        match r {
            Ok(a) => batch_outcome(answered@) == Ok::<(), Failure>(()) && exists|reqs: Seq<
                Seq<char>,
            >|
                reqs.len() == answered@.len() && attrs_view(a@) == batch_attrs(answered@, reqs),
            Err(e) => batch_outcome(answered@) == Err::<(), Failure>(e@),
        },
{
    let ghost all = answered@;
    let mut rest = answered;
    let mut attributes: Vec<Attribute> = Vec::new();
    let ghost mut reqs: Seq<Seq<char>> = Seq::empty();
    let n = rest.len();
    let mut i: usize = 0;
    while i < n
        invariant
            n == all.len(),
            all == answered@,
            forall|k: int| 0 <= k < all.len() ==> fetched_well_formed(#[trigger] all[k].1),
            i <= n,
            rest@ == all.skip(i as int),
            batch_outcome(all.take(i as int)) == Ok::<(), Failure>(()),
            reqs.len() == i,
            attrs_view(attributes@) == batch_attrs(all.take(i as int), reqs),
        decreases n - i,
    {
        let (query, fetched) = rest.remove(0);
        proof {
            assert(fetched_well_formed(all[i as int].1));
            assert(all.skip(i as int)[0] == all[i as int]);
            assert(all.take(i + 1).drop_last() =~= all.take(i as int));
            assert(all.take(i + 1).last() == all[i as int]);
        }
        match run_query(i, query, fetched) {
            Ok(mut a) => {
                let ghost av = a@;
                let ghost pre = attributes@;
                let ghost old_reqs = reqs;
                proof {
                    let req = av[0].value@;
                    reqs = reqs.push(req);
                    assert(reqs.drop_last() =~= old_reqs);
                    assert(attrs_view(av).len() == av.len());
                    assert(attrs_view(av)[0] == (av[0].key@, av[0].value@));
                    assert(attrs_view(av) =~= seq![(attr_key(i as nat, "_request"@), req)]
                        + attrs_view(av).drop_first());
                }
                attributes.append(&mut a);
                proof {
                    assert(attrs_view(attributes@) =~= attrs_view(pre) + attrs_view(av));
                    let qs = all.take(i + 1);
                    assert(batch_attrs(qs, reqs) == batch_attrs(qs.drop_last(), reqs.drop_last())
                        + seq![(attr_key(i as nat, "_request"@), reqs.last())] + body_of(
                        i as nat,
                        qs.last(),
                    )->Ok_0);
                    assert(attrs_view(attributes@) =~= batch_attrs(all.take(i + 1), reqs));
                }
            },
            Err(e) => {
                proof {
                    assert(batch_outcome(all.take(i + 1)) == Err::<(), Failure>(e@));
                    lemma_batch_stays_failed(all, (i + 1) as int);
                }
                return Err(e);
            },
        }
        proof {
            assert(rest@ =~= all.skip(i + 1));
        }
        i += 1;
    }
    proof {
        assert(all.take(n as int) =~= all);
    }
    Ok(attributes)
}

/// Once a prefix of the batch fails, the whole batch fails with the same error.
pub proof fn lemma_batch_stays_failed(qs: Seq<(QueryToAssert, Result<Value, String>)>, n: int)
    requires
        0 <= n <= qs.len(),
        batch_outcome(qs.take(n)) is Err,
    ensures
        batch_outcome(qs) == batch_outcome(qs.take(n)),
    decreases qs.len() - n,
{
    if n < qs.len() {
        assert(qs.take(n + 1).drop_last() =~= qs.take(n));
        lemma_batch_stays_failed(qs, n + 1);
    } else {
        assert(qs.take(n) =~= qs);
    }
}

} // verus!
