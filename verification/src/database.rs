//! The persister: connection-string preparation and the bounded-retry
//! protocol for the two storage writes.
//!
//! The binary opens the connections and runs the inserts; this module
//! decides everything: how the connection string is cleaned, when a call
//! fails at once, when an attempt is retried after the fixed backoff, and
//! when the call is abandoned.

use vstd::prelude::*;
use vstd::string::StringExecFns;

verus! {

/// Connection attempts one store call may spend.
pub const MAX_RETRIES: usize = 100;

/// Seconds between one failed attempt and the next.
pub const WAIT_BETWEEN_RETRIES: u64 = 5;

/// Why a persistence call failed.
#[derive(Clone, Copy, PartialEq, Eq, Structural, Debug)]
pub enum PersistError {
    /// The connection string is not a well-formed URL; the call fails at
    /// once, before any connection attempt.
    InvalidUrl,
    /// The connection string lacks the required certificate parameter;
    /// the call fails at once, before any connection attempt.
    MissingSslRootCert,
    /// Every connection attempt was spent without a successful insert.
    MaxRetriesExceeded,
}

/// Whether `url::Url::parse` accepts the string.
pub uninterp spec fn url_parse_ok(s: Seq<char>) -> bool;

/// The decoded (key, value) query pairs of the parsed URL, in order.
pub uninterp spec fn url_query_pairs_of(s: Seq<char>) -> Seq<(Seq<char>, Seq<char>)>;

/// The serialization of the parsed URL with its query replaced by `q`
/// (`None` removes the query).
pub uninterp spec fn url_with_query_of(s: Seq<char>, q: Option<Seq<char>>) -> Seq<char>;

/// Relies on `url::Url::parse` and `url::Url::query_pairs`: parsing a
/// given string either fails or yields one URL, and the query pairs are
/// its decoded query in order; both depend on the string alone.
#[verifier::external_body]
fn url_query_pairs(s: &str) -> (r: Option<Vec<(String, String)>>)
    ensures
        r is Some <==> url_parse_ok(s@),
        match r {
            Some(pairs) => pairs@.map_values(|p: (String, String)| (p.0@, p.1@))
                == url_query_pairs_of(s@),
            None => true,
        },
{
    match url::Url::parse(s) {
        Ok(u) => Some(u.query_pairs().map(|(k, v)| (k.into_owned(), v.into_owned())).collect()),
        Err(_) => None,
    }
}

/// Relies on `url::Url::parse`, `url::Url::set_query` and the `Display`
/// serialization of `url::Url`: for a string that parses, the
/// serialization with the query replaced depends on the two arguments
/// alone.
#[verifier::external_body]
fn url_replace_query(s: &str, q: Option<&str>) -> (r: String)
    requires
        url_parse_ok(s@),
    ensures
        r@ == url_with_query_of(
            s@,
            match q {
                Some(qs) => Some(qs@),
                None => None,
            },
        ),
{
    let mut u = match url::Url::parse(s) {
        Ok(u) => u,
        Err(_) => return String::new(),
    };
    u.set_query(q);
    u.to_string()
}

/// The value of the last `sslrootcert` query parameter, if any.
pub open spec fn find_sslrootcert(pairs: Seq<(Seq<char>, Seq<char>)>) -> Option<Seq<char>>
    decreases pairs.len(),
{
    if pairs.len() == 0 {
        None
    } else if pairs.last().0 == "sslrootcert"@ {
        Some(pairs.last().1)
    } else {
        find_sslrootcert(pairs.drop_last())
    }
}

/// The query pairs with every `sslrootcert` parameter removed, in order.
pub open spec fn strip_sslrootcert(pairs: Seq<(Seq<char>, Seq<char>)>) -> Seq<
    (Seq<char>, Seq<char>),
>
    decreases pairs.len(),
{
    if pairs.len() == 0 {
        Seq::empty()
    } else if pairs.last().0 == "sslrootcert"@ {
        strip_sslrootcert(pairs.drop_last())
    } else {
        strip_sslrootcert(pairs.drop_last()).push(pairs.last())
    }
}

/// One query pair written back as `key=value`.
pub open spec fn pair_str(p: (Seq<char>, Seq<char>)) -> Seq<char> {
    p.0 + "="@ + p.1
}

/// Query pairs written back as `key=value` joined with `&`.
pub open spec fn join_query(pairs: Seq<(Seq<char>, Seq<char>)>) -> Seq<char>
    decreases pairs.len(),
{
    if pairs.len() == 0 {
        Seq::empty()
    } else if pairs.len() == 1 {
        pair_str(pairs[0])
    } else {
        join_query(pairs.drop_last()) + "&"@ + pair_str(pairs.last())
    }
}

/// The query the cleaned connection string carries: the remaining pairs
/// joined back, or nothing when none remain.
pub open spec fn clean_query_of(pairs: Seq<(Seq<char>, Seq<char>)>) -> Option<Seq<char>> {
    if strip_sslrootcert(pairs).len() == 0 {
        None
    } else {
        Some(join_query(strip_sslrootcert(pairs)))
    }
}

/// The connection string as the database client receives it: the URL
/// with the `sslrootcert` parameter stripped from its query.
pub open spec fn clean_url_of(s: Seq<char>) -> Seq<char> {
    url_with_query_of(s, clean_query_of(url_query_pairs_of(s)))
}

/// What one store call connects with: the cleaned connection string and
/// the path of the CA certificate extracted from it.
#[derive(Clone, Debug)]
pub struct ConnectionPlan {
    /// The connection string with the certificate parameter removed.
    pub clean_url: String,
    /// Filesystem path of the CA certificate for server verification.
    pub sslrootcert: String,
}

/// Parse the connection string and split it into the cleaned URL and the
/// certificate path.
///
/// A string that does not parse, or whose query lacks the `sslrootcert`
/// parameter, fails here at once: such a call makes no connection
/// attempt.  The last `sslrootcert` value wins, and the remaining query
/// pairs keep their order in the cleaned URL.
pub fn prepare_connection(database_url: &str) -> (r: Result<ConnectionPlan, PersistError>)
    ensures
        r is Ok <==> (url_parse_ok(database_url@) && find_sslrootcert(
            url_query_pairs_of(database_url@),
        ) is Some),
        match r {
            Ok(plan) => {
                &&& Some(plan.sslrootcert@) == find_sslrootcert(url_query_pairs_of(database_url@))
                &&& plan.clean_url@ == clean_url_of(database_url@)
            },
            Err(e) => {
                &&& (e == PersistError::InvalidUrl <==> !url_parse_ok(database_url@))
                &&& (e == PersistError::MissingSslRootCert <==> (url_parse_ok(database_url@)
                    && find_sslrootcert(url_query_pairs_of(database_url@)) is None))
            },
        },
{
    let pairs = match url_query_pairs(database_url) {
        Some(pairs) => pairs,
        None => {
            return Err(PersistError::InvalidUrl);
        },
    };
    let ghost pv = url_query_pairs_of(database_url@);
    let key = String::from_str("sslrootcert");
    let mut cert: Option<String> = None;
    let mut rest: Vec<(String, String)> = Vec::new();
    let n = pairs.len();
    let mut i: usize = 0;
    proof {
        assert(rest@.map_values(|p: (String, String)| (p.0@, p.1@)) =~= Seq::<
            (Seq<char>, Seq<char>),
        >::empty());
        assert(pv.take(0) =~= Seq::<(Seq<char>, Seq<char>)>::empty());
    }
    while i < n
        invariant
            n == pairs.len(),
            pv == pairs@.map_values(|p: (String, String)| (p.0@, p.1@)),
            key@ == "sslrootcert"@,
            i <= n,
            match cert {
                Some(c) => find_sslrootcert(pv.take(i as int)) == Some(c@),
                None => find_sslrootcert(pv.take(i as int)) is None,
            },
            rest@.map_values(|p: (String, String)| (p.0@, p.1@)) == strip_sslrootcert(
                pv.take(i as int),
            ),
        decreases n - i,
    {
        proof {
            assert(pv.take(i as int + 1).drop_last() =~= pv.take(i as int));
            assert(pv[i as int] == pairs@[i as int]@);
        }
        let ghost rest_before = rest@.map_values(|p: (String, String)| (p.0@, p.1@));
        if pairs[i].0 == key {
            cert = Some(pairs[i].1.clone());
        } else {
            rest.push((pairs[i].0.clone(), pairs[i].1.clone()));
            proof {
                assert(rest@.map_values(|p: (String, String)| (p.0@, p.1@)) =~= rest_before.push(
                    pv[i as int],
                ));
            }
        }
        i = i + 1;
    }
    proof {
        assert(pv.take(n as int) =~= pv);
    }
    let sslrootcert = match cert {
        Some(c) => c,
        None => {
            return Err(PersistError::MissingSslRootCert);
        },
    };
    let ghost stripped = strip_sslrootcert(pv);
    let mut query = String::new();
    let m = rest.len();
    let mut j: usize = 0;
    proof {
        assert(stripped.take(0) =~= Seq::<(Seq<char>, Seq<char>)>::empty());
        assert(query@ =~= join_query(stripped.take(0)));
    }
    while j < m
        invariant
            m == rest.len(),
            stripped == rest@.map_values(|p: (String, String)| (p.0@, p.1@)),
            j <= m,
            query@ == join_query(stripped.take(j as int)),
        decreases m - j,
    {
        proof {
            assert(stripped.take(j as int + 1).drop_last() =~= stripped.take(j as int));
            assert(stripped[j as int] == rest@[j as int]@);
        }
        if j > 0 {
            query.append("&");
        }
        query.append(rest[j].0.as_str());
        query.append("=");
        query.append(rest[j].1.as_str());
        proof {
            assert(query@ =~= join_query(stripped.take(j as int + 1)));
        }
        j = j + 1;
    }
    proof {
        assert(stripped.take(m as int) =~= stripped);
    }
    let clean_url = if rest.len() == 0 {
        url_replace_query(database_url, None)
    } else {
        url_replace_query(database_url, Some(query.as_str()))
    };
    Ok(ConnectionPlan { clean_url, sslrootcert })
}

/// The retry budget of one store call: how many connection attempts it
/// has started.  Each call owns its counter, so the two storage
/// channels' calls never share a budget.
#[derive(Clone, Copy, PartialEq, Eq, Structural, Debug)]
pub struct RetryState {
    pub attempts_used: usize,
}

/// What the driving loop must do next with one store call.
#[derive(Clone, Copy, PartialEq, Eq, Structural, Debug)]
pub enum StoreStep {
    /// The insert went through: the call is finished, successfully.
    Done,
    /// The attempt failed and attempts remain: sleep this many seconds,
    /// then attempt again with a brand-new connection.
    Retry { backoff_secs: u64 },
    /// The attempt failed and the budget is spent: the call has failed
    /// with the terminal error.
    Failed(PersistError),
}

/// The step after an attempt, given how many attempts the call had
/// started before it and whether it succeeded.
pub open spec fn spec_store_step(attempts_before: int, succeeded: bool) -> StoreStep {
    if succeeded {
        StoreStep::Done
    } else if attempts_before + 1 < MAX_RETRIES {
        StoreStep::Retry { backoff_secs: WAIT_BETWEEN_RETRIES }
    } else {
        StoreStep::Failed(PersistError::MaxRetriesExceeded)
    }
}

/// A fresh retry budget: no attempt started yet.
pub fn retry_begin() -> (r: RetryState)
    ensures
        r.attempts_used == 0,
{
    RetryState { attempts_used: 0 }
}

/// Record one connection attempt and say what follows it: success ends
/// the call; a failure is retried after the fixed backoff while attempts
/// remain, and fails the call when the budget is spent.
pub fn store_step(st: &mut RetryState, attempt_succeeded: bool) -> (r: StoreStep)
    requires
        old(st).attempts_used < MAX_RETRIES,
    ensures
        final(st).attempts_used == old(st).attempts_used + 1,
        r == spec_store_step(old(st).attempts_used as int, attempt_succeeded),
{
    st.attempts_used = st.attempts_used + 1;
    if attempt_succeeded {
        StoreStep::Done
    } else if st.attempts_used < MAX_RETRIES {
        StoreStep::Retry { backoff_secs: WAIT_BETWEEN_RETRIES }
    } else {
        StoreStep::Failed(PersistError::MaxRetriesExceeded)
    }
}

/// One store call as the driving loop runs it, starting with
/// `attempts_before` attempts already spent: `outcomes` holds the result
/// each successive connection attempt would have.  The result is how
/// many further attempts the call makes and whether it ends in success.
pub open spec fn spec_store_run(outcomes: Seq<bool>, attempts_before: int) -> (int, bool)
    decreases outcomes.len(),
{
    if attempts_before >= MAX_RETRIES || outcomes.len() == 0 {
        (0, false)
    } else {
        let step = spec_store_step(attempts_before, outcomes.first());
        if step is Done {
            (1, true)
        } else if step is Retry {
            let rest = spec_store_run(outcomes.drop_first(), attempts_before + 1);
            (1 + rest.0, rest.1)
        } else {
            (1, false)
        }
    }
}

/// A store call whose every attempt fails is abandoned only after
/// exactly `MAX_RETRIES` attempts; every failure before the last is
/// followed by the fixed backoff and the last by the terminal failure.
/// The run is a function of the call's own outcomes and counter alone,
/// so a sibling call's budget is untouched by it.
pub proof fn lemma_retry_exhaustion(outcomes: Seq<bool>)
    requires
        outcomes.len() >= MAX_RETRIES,
        forall|k: int| 0 <= k < outcomes.len() ==> !(#[trigger] outcomes[k]),
    ensures
        spec_store_run(outcomes, 0) == (MAX_RETRIES as int, false),
        forall|k: int|
            0 <= k < MAX_RETRIES - 1 ==> spec_store_step(k, false) == (StoreStep::Retry {
                backoff_secs: WAIT_BETWEEN_RETRIES,
            }),
        spec_store_step(MAX_RETRIES as int - 1, false) == StoreStep::Failed(
            PersistError::MaxRetriesExceeded,
        ),
{
    lemma_store_run_all_fail(outcomes, 0);
}

/// Failing attempts spend the remaining budget one by one.
proof fn lemma_store_run_all_fail(outcomes: Seq<bool>, attempts_before: int)
    requires
        0 <= attempts_before <= MAX_RETRIES,
        outcomes.len() >= MAX_RETRIES - attempts_before,
        forall|k: int| 0 <= k < outcomes.len() ==> !(#[trigger] outcomes[k]),
    ensures
        spec_store_run(outcomes, attempts_before) == (MAX_RETRIES - attempts_before, false),
    decreases outcomes.len(),
{
    if attempts_before < MAX_RETRIES {
        assert(!outcomes[0]);
        if attempts_before + 1 < MAX_RETRIES {
            assert(forall|k: int|
                0 <= k < outcomes.drop_first().len() ==> !(#[trigger] outcomes.drop_first()[k]));
            lemma_store_run_all_fail(outcomes.drop_first(), attempts_before + 1);
        }
    }
}

/// A store call whose first success comes at attempt `k` (counting from
/// zero) ends successfully after exactly `k + 1` attempts.
pub proof fn lemma_retry_first_success(outcomes: Seq<bool>, k: int)
    requires
        0 <= k < MAX_RETRIES,
        k < outcomes.len(),
        outcomes[k],
        forall|j: int| 0 <= j < k ==> !(#[trigger] outcomes[j]),
    ensures
        spec_store_run(outcomes, 0) == (k + 1, true),
{
    lemma_store_run_success(outcomes, 0, k);
}

/// The successful attempt ends the run wherever the budget stands.
proof fn lemma_store_run_success(outcomes: Seq<bool>, attempts_before: int, k: int)
    requires
        0 <= attempts_before,
        0 <= k,
        attempts_before + k < MAX_RETRIES,
        k < outcomes.len(),
        outcomes[k],
        forall|j: int| 0 <= j < k ==> !(#[trigger] outcomes[j]),
    ensures
        spec_store_run(outcomes, attempts_before) == (k + 1, true),
    decreases k,
{
    if k > 0 {
        assert(!outcomes[0]);
        assert(outcomes.drop_first()[k - 1]);
        assert(forall|j: int| 0 <= j < k - 1 ==> !(#[trigger] outcomes.drop_first()[j]));
        lemma_store_run_success(outcomes.drop_first(), attempts_before + 1, k - 1);
    }
}

} // verus!
