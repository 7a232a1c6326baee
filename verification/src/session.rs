//! The session store: opaque bearer tokens mapped to authenticated
//! identities.
//!
//! A token is issued on a successful credential check, resolved on every
//! authenticated request, revoked on logout, and evicted by a lazy sweep:
//! whenever an issue finds that more than the sweep interval has passed
//! since the last sweep, every session older than that interval is removed
//! in one pass.  A session therefore lives at least one interval and at
//! most two, which is the intended amortization, not an accident.  Nothing
//! here ever fails: absence is an empty answer.
//!
//! The store is modelled as a finite map from the token's characters to
//! the owning user's name and the issuance time in seconds.

use vstd::prelude::*;
use rand::Rng;
use crate::SrvError;
use crate::auth::{Logged, User, authenticate, credentials_match};

verus! {

/// Seconds after which a session is stale and a sweep is due.
pub const CLEAN_INTERVAL: u64 = 24 * 60 * 60;

/// The identity and issuance time a live token resolves to.
pub struct Authed {
    pub user: String,
    pub from: u64,
}

/// The session store: token entries plus the time of the last sweep.
pub struct Tokens {
    pub entries: Vec<(String, Authed)>,
    pub last_clean: u64,
}

/// Whether some entry carries the given token.
pub open spec fn has_token(s: Seq<(String, Authed)>, t: Seq<char>) -> bool {
    exists|i: int| 0 <= i < s.len() && s[i].0@ == t
}

/// Entries carry pairwise distinct tokens, so each token names one session.
pub open spec fn wf_entries(s: Seq<(String, Authed)>) -> bool {
    forall|i: int, j: int| 0 <= i < j < s.len() ==> (#[trigger] s[i].0@) != (#[trigger] s[j].0@)
}

/// The map behind a list of entries: each token to its user name and
/// issuance time.
pub open spec fn view_of(s: Seq<(String, Authed)>) -> Map<Seq<char>, (Seq<char>, u64)> {
    Map::new(
        |t: Seq<char>| has_token(s, t),
        |t: Seq<char>|
            {
                let i = choose|i: int| 0 <= i < s.len() && s[i].0@ == t;
                (s[i].1.user@, s[i].1.from)
            },
    )
}

impl View for Tokens {
    type V = Map<Seq<char>, (Seq<char>, u64)>;

    open spec fn view(&self) -> Map<Seq<char>, (Seq<char>, u64)> {
        view_of(self.entries@)
    }
}

/// Whether a session issued at `from` is still fresh at `now`.
pub open spec fn fresh_at(from: u64, now: u64) -> bool {
    (now as int) < (from as int) + (CLEAN_INTERVAL as int)
}

/// What a sweep at `now` leaves of the store: exactly the fresh sessions,
/// unchanged.
pub open spec fn swept(m: Map<Seq<char>, (Seq<char>, u64)>, now: u64) -> Map<
    Seq<char>,
    (Seq<char>, u64),
> {
    Map::new(|t: Seq<char>| m.contains_key(t) && fresh_at(m[t].1, now), |t: Seq<char>| m[t])
}

/// Whether an issue at `now` triggers the lazy sweep.
pub open spec fn sweep_due(last_clean: u64, now: u64) -> bool {
    (now as int) - (last_clean as int) > (CLEAN_INTERVAL as int)
}

/// A token character: the alphanumeric ASCII alphabet.
pub open spec fn is_token_char(c: char) -> bool {
    ('a' <= c && c <= 'z') || ('A' <= c && c <= 'Z') || ('0' <= c && c <= '9')
}

/// Relies on rand's `thread_rng` with the `Alphanumeric` distribution: a
/// cryptographically secure generator whose samples are each one of the 62
/// characters `A`-`Z`, `a`-`z`, `0`-`9`.
#[verifier::external_body]
fn generate_token() -> (r: String)
    ensures
        r@.len() == 36,
        forall|i: int| 0 <= i < r@.len() ==> is_token_char(#[trigger] r@[i]),
{
    rand::thread_rng()
        .sample_iter(&rand::distributions::Alphanumeric)
        .take(36)
        .map(char::from)
        .collect()
}

/// The map entry at a well-formed index is the entry the view yields.
proof fn lemma_view_at(s: Seq<(String, Authed)>, i: int)
    requires
        wf_entries(s),
        0 <= i < s.len(),
    ensures
        view_of(s).contains_key(s[i].0@),
        view_of(s)[s[i].0@] == (s[i].1.user@, s[i].1.from),
{
    let t = s[i].0@;
    assert(has_token(s, t));
    let j = choose|j: int| 0 <= j < s.len() && s[j].0@ == t;
    assert(j == i);
}

/// Appending an entry whose token is absent inserts it into the view.
proof fn lemma_view_push(s: Seq<(String, Authed)>, e: (String, Authed))
    requires
        wf_entries(s),
        !has_token(s, e.0@),
    ensures
        wf_entries(s.push(e)),
        view_of(s.push(e)) == view_of(s).insert(e.0@, (e.1.user@, e.1.from)),
{
    let s2 = s.push(e);
    assert forall|i: int, j: int| 0 <= i < j < s2.len() implies (#[trigger] s2[i].0@) != (
    #[trigger] s2[j].0@) by {
        if j == s.len() {
            assert(s2[i] == s[i]);
            if s2[i].0@ == e.0@ {
                assert(has_token(s, e.0@));
            }
        }
    }
    let m1 = view_of(s2);
    let m2 = view_of(s).insert(e.0@, (e.1.user@, e.1.from));
    assert forall|t: Seq<char>| m1.contains_key(t) implies m2.contains_key(t) by {
        let i = choose|i: int| 0 <= i < s2.len() && s2[i].0@ == t;
        if i < s.len() {
            assert(has_token(s, t));
        }
    }
    assert forall|t: Seq<char>| m2.contains_key(t) implies m1.contains_key(t) by {
        if t == e.0@ {
            assert(s2[s.len() as int].0@ == t);
        } else {
            let i = choose|i: int| 0 <= i < s.len() && s[i].0@ == t;
            assert(s2[i].0@ == t);
        }
    }
    assert forall|t: Seq<char>| m1.contains_key(t) implies m1[t] == m2[t] by {
        let i = choose|i: int| 0 <= i < s2.len() && s2[i].0@ == t;
        if t == e.0@ {
            assert(i == s.len());
        } else {
            assert(i < s.len());
            assert(has_token(s, t));
            let j = choose|j: int| 0 <= j < s.len() && s[j].0@ == t;
            assert(s2[j] == s[j]);
            assert(j == i);
        }
    }
    assert(m1 =~= m2);
}

/// Removing the entry at an index removes its token from the view.
proof fn lemma_view_remove(s: Seq<(String, Authed)>, i: int)
    requires
        wf_entries(s),
        0 <= i < s.len(),
    ensures
        wf_entries(s.remove(i)),
        !has_token(s.remove(i), s[i].0@),
        view_of(s.remove(i)) == view_of(s).remove(s[i].0@),
{
    let s2 = s.remove(i);
    let t0 = s[i].0@;
    assert forall|a: int, b: int| 0 <= a < b < s2.len() implies (#[trigger] s2[a].0@) != (
    #[trigger] s2[b].0@) by {
        let a0 = if a < i { a } else { a + 1 };
        let b0 = if b < i { b } else { b + 1 };
        assert(s2[a] == s[a0] && s2[b] == s[b0]);
    }
    assert forall|k: int| 0 <= k < s2.len() implies (#[trigger] s2[k].0@) != t0 by {
        let k0 = if k < i { k } else { k + 1 };
        assert(s2[k] == s[k0]);
    }
    let m1 = view_of(s2);
    let m2 = view_of(s).remove(t0);
    assert forall|t: Seq<char>| m1.contains_key(t) implies m2.contains_key(t) && m1[t] == m2[t] by {
        let k = choose|k: int| 0 <= k < s2.len() && s2[k].0@ == t;
        let k0 = if k < i { k } else { k + 1 };
        assert(s2[k] == s[k0]);
        assert(has_token(s, t));
        lemma_view_at(s, k0);
        let j = choose|j: int| 0 <= j < s2.len() && s2[j].0@ == t;
        assert(j == k);
    }
    assert forall|t: Seq<char>| m2.contains_key(t) implies m1.contains_key(t) by {
        let j = choose|j: int| 0 <= j < s.len() && s[j].0@ == t;
        assert(j != i);
        let k = if j < i { j } else { j - 1 };
        assert(s2[k] == s[j]);
    }
    assert(m1 =~= m2);
}

/// The entries a sweep at `now` keeps: the fresh ones, in their order.
pub open spec fn swept_entries(s: Seq<(String, Authed)>, now: u64) -> Seq<(String, Authed)>
    decreases s.len(),
{
    if s.len() == 0 {
        Seq::empty()
    } else {
        let rest = swept_entries(s.drop_last(), now);
        if fresh_at(s.last().1.from, now) {
            rest.push(s.last())
        } else {
            rest
        }
    }
}

/// Keeping the fresh entries of a well-formed list restricts its map to
/// the fresh sessions.
proof fn lemma_swept_entries_view(s: Seq<(String, Authed)>, now: u64)
    requires
        wf_entries(s),
    ensures
        wf_entries(swept_entries(s, now)),
        forall|t: Seq<char>| #[trigger] has_token(swept_entries(s, now), t) ==> has_token(s, t),
        view_of(swept_entries(s, now)) == swept(view_of(s), now),
    decreases s.len(),
{
    if s.len() == 0 {
        assert(view_of(swept_entries(s, now)) =~= swept(view_of(s), now));
    } else {
        let s1 = s.drop_last();
        let e = s.last();
        let v = (e.1.user@, e.1.from);
        assert(wf_entries(s1));
        assert(!has_token(s1, e.0@)) by {
            if has_token(s1, e.0@) {
                let k = choose|k: int| 0 <= k < s1.len() && s1[k].0@ == e.0@;
                assert(s[k].0@ == s[s.len() - 1].0@);
            }
        }
        lemma_swept_entries_view(s1, now);
        lemma_view_push(s1, e);
        assert(s1.push(e) =~= s);
        if fresh_at(e.1.from, now) {
            assert(!has_token(swept_entries(s1, now), e.0@));
            lemma_view_push(swept_entries(s1, now), e);
            assert(view_of(swept_entries(s, now)) == swept(view_of(s1), now).insert(e.0@, v));
            assert(swept(view_of(s1), now).insert(e.0@, v) =~= swept(
                view_of(s1).insert(e.0@, v),
                now,
            ));
        } else {
            assert(swept(view_of(s1), now) =~= swept(view_of(s1).insert(e.0@, v), now));
        }
        assert forall|t: Seq<char>| #[trigger] has_token(swept_entries(s, now), t) implies
            has_token(s, t) by {
            let k = choose|k: int|
                0 <= k < swept_entries(s, now).len() && swept_entries(s, now)[k].0@ == t;
            if k < swept_entries(s1, now).len() {
                assert(has_token(swept_entries(s1, now), t));
                let j = choose|j: int| 0 <= j < s1.len() && s1[j].0@ == t;
                assert(s[j].0@ == t);
            } else {
                assert(s[s.len() - 1].0@ == t);
            }
        }
    }
}

impl Tokens {
    /// Distinct tokens: the store is a map.
    pub open spec fn wf(&self) -> bool {
        wf_entries(self.entries@)
    }

    /// An empty store whose last sweep is taken to have happened at `now`.
    pub fn new(now: u64) -> (r: Tokens)
        ensures
            r.wf(),
            r@ == Map::<Seq<char>, (Seq<char>, u64)>::empty(),
            r.last_clean == now,
    {
        let r = Tokens { entries: Vec::new(), last_clean: now };
        proof {
            assert(r@ =~= Map::<Seq<char>, (Seq<char>, u64)>::empty());
        }
        r
    }

    /// The first entry index carrying the token, if any.
    fn find_index(&self, token: &str) -> (r: Option<usize>)
        ensures
            match r {
                Some(i) => i < self.entries@.len() && self.entries@[i as int].0@ == token@,
                None => !has_token(self.entries@, token@),
            },
    {
        let mut i: usize = 0;
        while i < self.entries.len()
            invariant
                i <= self.entries@.len(),
                forall|j: int| 0 <= j < i ==> (#[trigger] self.entries@[j].0@) != token@,
            decreases self.entries@.len() - i,
        {
            if crate::utils::str_eq(self.entries[i].0.as_str(), token) {
                return Some(i);
            }
            i = i + 1;
        }
        None
    }

    /// Stores the token for the user, replacing any session the same token
    /// already named.
    pub fn insert(&mut self, token: String, user: String, from: u64)
        requires
            old(self).wf(),
        ensures
            final(self).wf(),
            final(self)@ == old(self)@.insert(token@, (user@, from)),
            final(self).last_clean == old(self).last_clean,
    {
        match self.find_index(token.as_str()) {
            Some(i) => {
                proof {
                    lemma_view_remove(self.entries@, i as int);
                }
                self.entries.remove(i);
            },
            None => {},
        }
        let ghost mid = self.entries@;
        let entry = (token, Authed { user, from });
        proof {
            lemma_view_push(mid, entry);
        }
        self.entries.push(entry);
        proof {
            assert(view_of(self.entries@) =~= old(self)@.insert(entry.0@, (
                entry.1.user@,
                entry.1.from,
            )));
        }
    }

    /// Looks the token up; an absent or already swept token yields nothing.
    pub fn resolve(&self, token: &str) -> (r: Option<Authed>)
        requires
            self.wf(),
        ensures
            match r {
                Some(a) => self@.contains_key(token@) && a.user@ == self@[token@].0 && a.from
                    == self@[token@].1,
                None => !self@.contains_key(token@),
            },
    {
        match self.find_index(token) {
            Some(i) => {
                proof {
                    lemma_view_at(self.entries@, i as int);
                }
                Some(
                    Authed {
                        user: self.entries[i].1.user.clone(),
                        from: self.entries[i].1.from,
                    },
                )
            },
            None => None,
        }
    }

    /// Forgets the token.  Revoking an absent token changes nothing; this
    /// is a no-op, never an error.
    pub fn revoke(&mut self, token: &str)
        requires
            old(self).wf(),
        ensures
            final(self).wf(),
            final(self)@ == old(self)@.remove(token@),
            final(self).last_clean == old(self).last_clean,
    {
        match self.find_index(token) {
            Some(i) => {
                proof {
                    lemma_view_remove(self.entries@, i as int);
                }
                self.entries.remove(i);
            },
            None => {
                proof {
                    assert(self@ =~= old(self)@.remove(token@));
                }
            },
        }
    }

    /// Evicts every session older than the sweep interval, in one pass,
    /// and records `now` as the time of the last sweep.
    pub fn sweep(&mut self, now: u64)
        requires
            old(self).wf(),
        ensures
            final(self).wf(),
            final(self)@ == swept(old(self)@, now),
            final(self).last_clean == now,
    {
        let ghost s0 = self.entries@;
        let n0 = self.entries.len();
        proof {
            assert(s0.len() == n0 as int);
        }
        let mut kept: Vec<(String, Authed)> = Vec::new();
        let mut i: usize = 0;
        while self.entries.len() > 0
            invariant
                s0.len() <= usize::MAX,
                i <= s0.len(),
                self.entries@ == s0.skip(i as int),
                self.entries@.len() + i == s0.len(),
                kept@ == swept_entries(s0.take(i as int), now),
            decreases self.entries@.len(),
        {
            proof {
                assert(self.entries@[0] == s0[i as int]);
            }
            let e = self.entries.remove(0);
            proof {
                assert(e == s0[i as int]);
            }
            let keep = if now >= e.1.from {
                now - e.1.from < CLEAN_INTERVAL
            } else {
                true
            };
            proof {
                assert(keep == fresh_at(e.1.from, now));
                assert(s0.take(i + 1 as int).drop_last() =~= s0.take(i as int));
                assert(s0.take(i + 1 as int).last() == s0[i as int]);
            }
            if keep {
                kept.push(e);
            }
            proof {
                assert(self.entries@ =~= s0.skip(i + 1 as int));
                assert(kept@ == swept_entries(s0.take(i + 1 as int), now));
            }
            i = i + 1;
        }
        proof {
            assert(s0.take(i as int) =~= s0);
        }
        self.entries = kept;
        self.last_clean = now;
        proof {
            lemma_swept_entries_view(s0, now);
        }
    }

    /// Runs the lazy sweep when more than the sweep interval has passed
    /// since the last one; otherwise leaves the store alone.
    pub fn try_sweep(&mut self, now: u64)
        requires
            old(self).wf(),
        ensures
            final(self).wf(),
            sweep_due(old(self).last_clean, now) ==> final(self)@ == swept(old(self)@, now)
                && final(self).last_clean == now,
            !sweep_due(old(self).last_clean, now) ==> final(self)@ == old(self)@
                && final(self).last_clean == old(self).last_clean
                && final(self).entries@ == old(self).entries@,
    {
        if now >= self.last_clean && now - self.last_clean > CLEAN_INTERVAL {
            self.sweep(now);
        }
    }

    /// Issues a fresh random token for the user: generates it, stores it
    /// with the issuance time, and triggers the lazy sweep.  The new token
    /// always survives the sweep, being issued at `now` itself.
    pub fn issue(&mut self, user: String, now: u64) -> (token: String)
        requires
            old(self).wf(),
        ensures
            final(self).wf(),
            token@.len() == 36,
            forall|i: int| 0 <= i < token@.len() ==> is_token_char(#[trigger] token@[i]),
            final(self)@ == if sweep_due(old(self).last_clean, now) {
                swept(old(self)@.insert(token@, (user@, now)), now)
            } else {
                old(self)@.insert(token@, (user@, now))
            },
            final(self)@.contains_key(token@),
            final(self)@[token@] == (user@, now),
    {
        let token = generate_token();
        let token_copy = token.clone();
        self.insert(token_copy, user, now);
        self.try_sweep(now);
        token
    }
}

/// Logs a user in: the first user matching the presented credentials gets a
/// fresh token issued at `now`; mismatched credentials are a denial and
/// leave the store untouched.
pub fn enter(users: &Vec<User>, tokens: &mut Tokens, name: &str, pass: &str, now: u64) -> (r:
    Result<Logged, SrvError>)
    requires
        old(tokens).wf(),
    ensures
        final(tokens).wf(),
        match r {
            Ok(logged) => {
                &&& exists|i: int|
                    {
                        &&& 0 <= i < users@.len()
                        &&& #[trigger] credentials_match(users@, i, name@, pass@)
                        &&& forall|j: int| 0 <= j < i ==> !credentials_match(users@, j, name@, pass@)
                        &&& logged.lang@ == users@[i].lang@
                    }
                &&& logged.token@.len() == 36
                &&& forall|i: int|
                    0 <= i < logged.token@.len() ==> is_token_char(#[trigger] logged.token@[i])
                &&& final(tokens)@.contains_key(logged.token@)
                &&& final(tokens)@[logged.token@] == (name@, now)
            },
            Err(e) => {
                &&& forall|j: int|
                    0 <= j < users@.len() ==> !credentials_match(users@, j, name@, pass@)
                &&& e matches SrvError::Forbidden(_)
                &&& final(tokens)@ == old(tokens)@
                &&& final(tokens).entries@ == old(tokens).entries@
            },
        },
{
    match authenticate(users, name, pass) {
        Some(i) => {
            let token = tokens.issue(name.to_owned(), now);
            Ok(Logged { lang: users[i].lang.clone(), token })
        },
        None => Err(SrvError::Forbidden("User and pass not found".to_owned())),
    }
}

/// Issuing a token and resolving it straight away yields the identity it
/// was issued for: inserting a key into the session map makes exactly that
/// key present, carrying exactly that user and time.
pub proof fn lemma_token_round_trip(
    m: Map<Seq<char>, (Seq<char>, u64)>,
    t: Seq<char>,
    u: Seq<char>,
    now: u64,
)
    ensures
        m.insert(t, (u, now)).contains_key(t),
        m.insert(t, (u, now))[t] == (u, now),
{
}

/// The expiry window of the lazy sweep: a session issued at `issued` is
/// untouched by any sweep strictly before `issued` plus the interval, and
/// removed by any sweep at or after that point.
pub proof fn lemma_expiry_window(
    m: Map<Seq<char>, (Seq<char>, u64)>,
    t: Seq<char>,
    u: Seq<char>,
    issued: u64,
    now: u64,
)
    requires
        m.contains_key(t),
        m[t] == (u, issued),
    ensures
        (now as int) < (issued as int) + (CLEAN_INTERVAL as int) ==> swept(m, now).contains_key(t)
            && swept(m, now)[t] == (u, issued),
        (now as int) >= (issued as int) + (CLEAN_INTERVAL as int) ==> !swept(m, now).contains_key(
            t,
        ),
{
}

/// Two distinct tokens of one batch can never be prefixes of one another:
/// a prefix of equal length is the whole string.
pub proof fn lemma_equal_length_prefix_is_equal(a: Seq<char>, b: Seq<char>)
    requires
        a.len() == b.len(),
        a.is_prefix_of(b),
    ensures
        a == b,
{
    assert(a =~= b);
}

} // verus!
