//! The connection-pool cache and the textual row format of the query
//! broker.
//!
//! Pools are created lazily, one per base name, and cached for the life of
//! the process: the cache is a name-keyed association holding at most one
//! entry per name, so a second request for a known name reuses the entry
//! and never installs a duplicate.  The value type is generic: the cache
//! carries whatever handle the backend driver hands out, opaquely.
//!
//! Query results are serialized row by row into a comma-separated line
//! with CSV-style escaping: double quotes are doubled, a backslash is
//! doubled, carriage return, line feed and tab become backslash sequences,
//! and the whole field is wrapped in double quotes when it contains a
//! comma or a quote after escaping.  The inverse parse is provided too,
//! and decoding an encoded field is proved to give the original back.

use vstd::prelude::*;
use crate::utils::{chars_to_string, str_to_chars};

verus! {

// --- the pool cache ---

/// A lazily filled cache of backend pool handles, one per base name.
pub struct Pool<T> {
    pub entries: Vec<(String, T)>,
}

/// Whether the cache holds an entry for the name.
pub open spec fn pool_has<T>(s: Seq<(String, T)>, name: Seq<char>) -> bool {
    exists|i: int| 0 <= i < s.len() && s[i].0@ == name
}

impl<T> Pool<T> {
    /// Entries carry pairwise distinct names: one pool per base.
    pub open spec fn wf(&self) -> bool {
        forall|i: int, j: int|
            0 <= i < j < self.entries@.len() ==> (#[trigger] self.entries@[i].0@) != (
            #[trigger] self.entries@[j].0@)
    }

    /// An empty cache.
    pub fn new() -> (r: Pool<T>)
        ensures
            r.wf(),
            r.entries@.len() == 0,
    {
        Pool { entries: Vec::new() }
    }

    /// The first entry index for the name, if any.
    fn find_index(&self, name: &str) -> (r: Option<usize>)
        ensures
            match r {
                Some(i) => i < self.entries@.len() && self.entries@[i as int].0@ == name@,
                None => !pool_has(self.entries@, name@),
            },
    {
        let mut i: usize = 0;
        while i < self.entries.len()
            invariant
                i <= self.entries@.len(),
                forall|j: int| 0 <= j < i ==> (#[trigger] self.entries@[j].0@) != name@,
            decreases self.entries@.len() - i,
        {
            if crate::utils::str_eq(self.entries[i].0.as_str(), name) {
                return Some(i);
            }
            i = i + 1;
        }
        None
    }

    /// Whether a pool for the name is already cached.
    pub fn contains(&self, name: &str) -> (r: bool)
        ensures
            r == pool_has(self.entries@, name@),
    {
        match self.find_index(name) {
            Some(i) => {
                proof {
                    assert(self.entries@[i as int].0@ == name@);
                }
                true
            },
            None => false,
        }
    }

    /// The cached handle for the name, if any.
    pub fn get(&self, name: &str) -> (r: Option<&T>)
        ensures
            match r {
                Some(v) => exists|i: int|
                    0 <= i < self.entries@.len() && (#[trigger] self.entries@[i]).0@ == name@
                        && self.entries@[i].1 == *v,
                None => !pool_has(self.entries@, name@),
            },
    {
        match self.find_index(name) {
            Some(i) => Some(&self.entries[i].1),
            None => None,
        }
    }

    /// Caches a freshly created handle under the name, unless one is
    /// already there: the first pool for a name wins and is never
    /// displaced, so at most one pool per base is ever retained.
    pub fn insert_new(&mut self, name: String, value: T)
        requires
            old(self).wf(),
        ensures
            final(self).wf(),
            pool_has(final(self).entries@, name@),
            pool_has(old(self).entries@, name@) ==> final(self).entries@ == old(self).entries@,
            !pool_has(old(self).entries@, name@) ==> final(self).entries@ == old(
                self,
            ).entries@.push((name, value)),
    {
        match self.find_index(name.as_str()) {
            Some(i) => {
                proof {
                    assert(self.entries@[i as int].0@ == name@);
                }
            },
            None => {
                let ghost before = self.entries@;
                self.entries.push((name, value));
                proof {
                    let last = self.entries@.len() - 1;
                    assert(self.entries@[last].0@ == name@);
                    assert forall|i: int, j: int| 0 <= i < j < self.entries@.len() implies (
                    #[trigger] self.entries@[i].0@) != (#[trigger] self.entries@[j].0@) by {
                        if j == last {
                            assert(self.entries@[i] == before[i]);
                            if self.entries@[i].0@ == name@ {
                                assert(pool_has(before, name@));
                            }
                        }
                    }
                }
            },
        }
    }
}

/// One pool per name: a well-formed cache cannot hold two entries for the
/// same base name, so concurrent first-time users of a base end up sharing
/// whichever entry was installed first.
pub proof fn lemma_pool_name_unique<T>(p: Pool<T>, name: Seq<char>, i: int, j: int)
    requires
        p.wf(),
        0 <= i < p.entries@.len(),
        0 <= j < p.entries@.len(),
        p.entries@[i].0@ == name,
        p.entries@[j].0@ == name,
    ensures
        i == j,
{
}

// --- the CSV row format ---

/// The expansion of one character under CSV escaping.
pub open spec fn csv_escape_char(c: char) -> Seq<char> {
    if c == '"' {
        seq!['"', '"']
    } else if c == '\\' {
        seq!['\\', '\\']
    } else if c == '\r' {
        seq!['\\', 'r']
    } else if c == '\n' {
        seq!['\\', 'n']
    } else if c == '\t' {
        seq!['\\', 't']
    } else {
        seq![c]
    }
}

/// The escaped body of a field: each character expanded in order.
pub open spec fn csv_escape(s: Seq<char>) -> Seq<char>
    decreases s.len(),
{
    if s.len() == 0 {
        Seq::empty()
    } else {
        csv_escape_char(s[0]) + csv_escape(s.skip(1))
    }
}

/// A field is wrapped in quotes when its escaped body still holds a quote
/// or a comma.
pub open spec fn csv_needs_quoting(e: Seq<char>) -> bool {
    e.contains('"') || e.contains(',')
}

/// The encoded form of one column value.
pub open spec fn csv_field(s: Seq<char>) -> Seq<char> {
    let e = csv_escape(s);
    if csv_needs_quoting(e) {
        seq!['"'] + e + seq!['"']
    } else {
        e
    }
}

/// Escaping one character after a prefix: escaping distributes over
/// concatenation.
proof fn lemma_escape_add(a: Seq<char>, b: Seq<char>)
    ensures
        csv_escape(a + b) == csv_escape(a) + csv_escape(b),
    decreases a.len(),
{
    if a.len() == 0 {
        assert(a + b =~= b);
        assert(csv_escape(a) + csv_escape(b) =~= csv_escape(b));
    } else {
        lemma_escape_add(a.skip(1), b);
        assert((a + b).skip(1) =~= a.skip(1) + b);
        assert((a + b)[0] == a[0]);
        assert(csv_escape_char(a[0]) + (csv_escape(a.skip(1)) + csv_escape(b)) =~= (csv_escape_char(
            a[0],
        ) + csv_escape(a.skip(1))) + csv_escape(b));
    }
}

/// Membership in a concatenation.
proof fn lemma_contains_add(a: Seq<char>, b: Seq<char>, x: char)
    ensures
        (a + b).contains(x) == (a.contains(x) || b.contains(x)),
{
    if (a + b).contains(x) {
        let i = choose|i: int| 0 <= i < (a + b).len() && (a + b)[i] == x;
        if i < a.len() {
            assert(a[i] == x);
        } else {
            assert(b[i - a.len()] == x);
        }
    }
    if a.contains(x) {
        let i = choose|i: int| 0 <= i < a.len() && a[i] == x;
        assert((a + b)[i] == x);
    }
    if b.contains(x) {
        let i = choose|i: int| 0 <= i < b.len() && b[i] == x;
        assert((a + b)[a.len() + i] == x);
    }
}

/// The escaped body holds a quote or a comma exactly when the original
/// value does: escaping introduces neither.
proof fn lemma_escape_quoting(s: Seq<char>)
    ensures
        csv_escape(s).contains('"') == s.contains('"'),
        csv_escape(s).contains(',') == s.contains(','),
    decreases s.len(),
{
    if s.len() == 0 {
    } else {
        lemma_escape_quoting(s.skip(1));
        lemma_contains_add(csv_escape_char(s[0]), csv_escape(s.skip(1)), '"');
        lemma_contains_add(csv_escape_char(s[0]), csv_escape(s.skip(1)), ',');
        assert(csv_escape_char(s[0]).contains('"') == (s[0] == '"')) by {
            if s[0] == '"' {
                assert(csv_escape_char(s[0])[0] == '"');
            } else {
                if csv_escape_char(s[0]).contains('"') {
                    let i = choose|i: int|
                        0 <= i < csv_escape_char(s[0]).len() && csv_escape_char(s[0])[i] == '"';
                }
            }
        }
        assert(csv_escape_char(s[0]).contains(',') == (s[0] == ',')) by {
            if s[0] == ',' {
                assert(csv_escape_char(s[0])[0] == ',');
            } else {
                if csv_escape_char(s[0]).contains(',') {
                    let i = choose|i: int|
                        0 <= i < csv_escape_char(s[0]).len() && csv_escape_char(s[0])[i] == ',';
                }
            }
        }
        assert(s.contains('"') == (s[0] == '"' || s.skip(1).contains('"'))) by {
            lemma_head_tail_contains(s, '"');
        }
        assert(s.contains(',') == (s[0] == ',' || s.skip(1).contains(','))) by {
            lemma_head_tail_contains(s, ',');
        }
    }
}

/// Membership in a non-empty sequence: the head or somewhere in the tail.
proof fn lemma_head_tail_contains(s: Seq<char>, x: char)
    requires
        s.len() > 0,
    ensures
        s.contains(x) == (s[0] == x || s.skip(1).contains(x)),
{
    if s.contains(x) {
        let i = choose|i: int| 0 <= i < s.len() && s[i] == x;
        if i > 0 {
            assert(s.skip(1)[i - 1] == x);
        }
    }
    if s.skip(1).contains(x) {
        let i = choose|i: int| 0 <= i < s.skip(1).len() && s.skip(1)[i] == x;
        assert(s[i + 1] == x);
    }
}

/// Encodes one column value for the CSV row format, exactly as the query
/// broker writes it.
pub fn get_column_value_for_csv(column_value: String) -> (r: String)
    ensures
        r@ == csv_field(column_value@),
{
    let chars = str_to_chars(column_value.as_str());
    let ghost s = column_value@;
    let n = chars.len();
    let mut out: Vec<char> = Vec::new();
    let mut quote = false;
    let mut i: usize = 0;
    while i < n
        invariant
            n == chars@.len(),
            chars@ == s,
            i <= n,
            out@ == csv_escape(s.take(i as int)),
            quote == (s.take(i as int).contains('"') || s.take(i as int).contains(',')),
        decreases n - i,
    {
        let c = chars[i];
        if c == '"' {
            out.push('"');
            out.push('"');
            quote = true;
        } else if c == '\\' {
            out.push('\\');
            out.push('\\');
        } else if c == '\r' {
            out.push('\\');
            out.push('r');
        } else if c == '\n' {
            out.push('\\');
            out.push('n');
        } else if c == '\t' {
            out.push('\\');
            out.push('t');
        } else {
            if c == ',' {
                quote = true;
            }
            out.push(c);
        }
        proof {
            let pre = s.take(i as int);
            let pre1 = s.take(i + 1 as int);
            assert(pre1 =~= pre + seq![s[i as int]]);
            lemma_escape_add(pre, seq![s[i as int]]);
            assert(csv_escape(seq![s[i as int]]) =~= csv_escape_char(s[i as int])) by {
                assert(seq![s[i as int]].skip(1) =~= Seq::<char>::empty());
                assert(csv_escape(Seq::<char>::empty()) =~= Seq::<char>::empty());
                assert(csv_escape_char(s[i as int]) + Seq::<char>::empty() =~= csv_escape_char(
                    s[i as int],
                ));
            }
            assert(out@ =~= csv_escape(pre) + csv_escape_char(s[i as int]));
            lemma_contains_add(pre, seq![s[i as int]], '"');
            lemma_contains_add(pre, seq![s[i as int]], ',');
            assert(seq![s[i as int]].contains('"') == (s[i as int] == '"')) by {
                if seq![s[i as int]].contains('"') {
                    let k = choose|k: int| 0 <= k < 1 && seq![s[i as int]][k] == '"';
                }
                if s[i as int] == '"' {
                    assert(seq![s[i as int]][0] == '"');
                }
            }
            assert(seq![s[i as int]].contains(',') == (s[i as int] == ',')) by {
                if seq![s[i as int]].contains(',') {
                    let k = choose|k: int| 0 <= k < 1 && seq![s[i as int]][k] == ',';
                }
                if s[i as int] == ',' {
                    assert(seq![s[i as int]][0] == ',');
                }
            }
        }
        i = i + 1;
    }
    proof {
        assert(s.take(n as int) =~= s);
        lemma_escape_quoting(s);
    }
    if quote {
        let mut wrapped: Vec<char> = Vec::new();
        wrapped.push('"');
        let mut body = out;
        wrapped.append(&mut body);
        wrapped.push('"');
        proof {
            assert(wrapped@ =~= seq!['"'] + csv_escape(s) + seq!['"']);
        }
        chars_to_string(&wrapped)
    } else {
        chars_to_string(&out)
    }
}

// --- the inverse parse ---

/// The character an escape sequence stands for.
pub open spec fn csv_unescape_char(c: char) -> char {
    if c == 'r' {
        '\r'
    } else if c == 'n' {
        '\n'
    } else if c == 't' {
        '\t'
    } else {
        c
    }
}

/// Undoes the backslash escapes of a field body, left to right.
pub open spec fn csv_unescape(s: Seq<char>) -> Seq<char>
    decreases s.len(),
{
    if s.len() == 0 {
        Seq::empty()
    } else if s[0] == '\\' && s.len() >= 2 {
        seq![csv_unescape_char(s[1])] + csv_unescape(s.skip(2))
    } else {
        seq![s[0]] + csv_unescape(s.skip(1))
    }
}

/// Collapses doubled quotes, left to right, as a CSV reader does inside a
/// quoted field.
pub open spec fn csv_undouble(s: Seq<char>) -> Seq<char>
    decreases s.len(),
{
    if s.len() == 0 {
        Seq::empty()
    } else if s[0] == '"' && s.len() >= 2 && s[1] == '"' {
        seq!['"'] + csv_undouble(s.skip(2))
    } else {
        seq![s[0]] + csv_undouble(s.skip(1))
    }
}

/// What a CSV reader makes of one encoded field: a quoted field is
/// unwrapped and its doubled quotes collapsed, then the backslash escapes
/// are undone.
pub open spec fn csv_parse_field_spec(t: Seq<char>) -> Seq<char> {
    if t.len() >= 2 && t[0] == '"' && t.last() == '"' {
        csv_unescape(csv_undouble(t.subrange(1, t.len() - 1)))
    } else {
        csv_unescape(t)
    }
}

/// The expansion of one character under backslash escaping alone, with no
/// quote doubling.
pub open spec fn csv_escape_bs_char(c: char) -> Seq<char> {
    if c == '\\' {
        seq!['\\', '\\']
    } else if c == '\r' {
        seq!['\\', 'r']
    } else if c == '\n' {
        seq!['\\', 'n']
    } else if c == '\t' {
        seq!['\\', 't']
    } else {
        seq![c]
    }
}

/// Backslash escaping alone, with no quote doubling.
pub open spec fn csv_escape_bs(s: Seq<char>) -> Seq<char>
    decreases s.len(),
{
    if s.len() == 0 {
        Seq::empty()
    } else {
        csv_escape_bs_char(s[0]) + csv_escape_bs(s.skip(1))
    }
}

/// Collapsing the doubled quotes of an escaped body leaves exactly the
/// backslash-escaped body.
proof fn lemma_undouble_escape(s: Seq<char>)
    ensures
        csv_undouble(csv_escape(s)) == csv_escape_bs(s),
    decreases s.len(),
{
    if s.len() == 0 {
    } else {
        lemma_undouble_escape(s.skip(1));
        let c = s[0];
        let chunk = csv_escape_char(c);
        let rest = csv_escape(s.skip(1));
        let e = chunk + rest;
        assert(csv_escape(s) == e);
        if c == '"' {
            assert(e[0] == '"' && e.len() >= 2 && e[1] == '"');
            assert(e.skip(2) =~= rest);
            assert(csv_undouble(e) == seq!['"'] + csv_undouble(rest));
            assert(seq!['"'] + csv_escape_bs(s.skip(1)) =~= csv_escape_bs_char(c) + csv_escape_bs(
                s.skip(1),
            ));
        } else if c == '\\' || c == '\r' || c == '\n' || c == '\t' {
            let c2 = chunk[1];
            assert(e[0] == '\\');
            assert(csv_undouble(e) == seq!['\\'] + csv_undouble(e.skip(1)));
            assert(e.skip(1)[0] == c2);
            assert(c2 != '"');
            if e.skip(1).len() >= 2 {
                assert(e.skip(1)[1] == rest[0]);
            }
            assert(csv_undouble(e.skip(1)) == seq![c2] + csv_undouble(e.skip(1).skip(1)));
            assert(e.skip(1).skip(1) =~= rest);
            assert(csv_undouble(e) =~= csv_escape_bs_char(c) + csv_escape_bs(s.skip(1)));
        } else {
            assert(e[0] == c && c != '"');
            assert(csv_undouble(e) == seq![c] + csv_undouble(e.skip(1)));
            assert(e.skip(1) =~= rest);
            assert(csv_undouble(e) =~= csv_escape_bs_char(c) + csv_escape_bs(s.skip(1)));
        }
    }
}

/// Undoing the backslash escapes of a backslash-escaped value yields the
/// value.
proof fn lemma_unescape_escape_bs(s: Seq<char>)
    ensures
        csv_unescape(csv_escape_bs(s)) == s,
    decreases s.len(),
{
    if s.len() == 0 {
    } else {
        lemma_unescape_escape_bs(s.skip(1));
        let c = s[0];
        let chunk = csv_escape_bs_char(c);
        let rest = csv_escape_bs(s.skip(1));
        let e = chunk + rest;
        assert(csv_escape_bs(s) == e);
        if c == '\\' || c == '\r' || c == '\n' || c == '\t' {
            assert(e[0] == '\\' && e.len() >= 2);
            assert(e[1] == chunk[1]);
            assert(csv_unescape_char(chunk[1]) == c);
            assert(e.skip(2) =~= rest);
            assert(csv_unescape(e) == seq![c] + csv_unescape(rest));
            assert(seq![c] + s.skip(1) =~= s);
        } else {
            assert(e[0] == c && c != '\\');
            assert(e.skip(1) =~= rest);
            assert(csv_unescape(e) == seq![c] + csv_unescape(rest));
            assert(seq![c] + s.skip(1) =~= s);
        }
    }
}

/// On a value with no quotes, escaping with and without quote doubling
/// agree.
proof fn lemma_escape_bs_no_quote(s: Seq<char>)
    requires
        !s.contains('"'),
    ensures
        csv_escape(s) == csv_escape_bs(s),
    decreases s.len(),
{
    if s.len() == 0 {
    } else {
        assert(s[0] != '"') by {
            if s[0] == '"' {
                assert(s.contains('"'));
            }
        }
        assert(!s.skip(1).contains('"')) by {
            if s.skip(1).contains('"') {
                let i = choose|i: int| 0 <= i < s.skip(1).len() && s.skip(1)[i] == '"';
                assert(s[i + 1] == '"');
            }
        }
        lemma_escape_bs_no_quote(s.skip(1));
        assert(csv_escape_char(s[0]) == csv_escape_bs_char(s[0]));
    }
}

/// Decoding an encoded field yields the original value: encoding, reading
/// the field back with a standard CSV reader and undoing the backslash
/// escapes is the identity.
pub proof fn lemma_csv_round_trip(s: Seq<char>)
    ensures
        csv_parse_field_spec(csv_field(s)) == s,
{
    let e = csv_escape(s);
    lemma_escape_quoting(s);
    if csv_needs_quoting(e) {
        let t = seq!['"'] + e + seq!['"'];
        assert(csv_field(s) == t);
        assert(t.len() >= 2 && t[0] == '"' && t.last() == '"');
        assert(t.subrange(1, t.len() - 1) =~= e);
        lemma_undouble_escape(s);
        lemma_unescape_escape_bs(s);
    } else {
        assert(csv_field(s) == e);
        assert(!e.contains('"'));
        if e.len() >= 2 && e[0] == '"' {
            assert(e.contains('"'));
        }
        assert(!s.contains('"'));
        lemma_escape_bs_no_quote(s);
        lemma_unescape_escape_bs(s);
    }
}

/// Parses one encoded field back to the value it encodes.
pub fn parse_csv_field(field: &str) -> (r: String)
    ensures
        r@ == csv_parse_field_spec(field@),
{
    let chars = str_to_chars(field);
    let n = chars.len();
    let quoted = n >= 2 && chars[0] == '"' && chars[n - 1] == '"';
    let mut body: Vec<char> = Vec::new();
    let start: usize = if quoted { 1 } else { 0 };
    let end: usize = if quoted { n - 1 } else { n };
    let mut i: usize = start;
    while i < end
        invariant
            n == chars@.len(),
            start <= i <= end <= n,
            body@ == chars@.subrange(start as int, i as int),
        decreases end - i,
    {
        body.push(chars[i]);
        proof {
            assert(body@ =~= chars@.subrange(start as int, i + 1 as int));
        }
        i = i + 1;
    }
    let ghost w = if quoted {
        field@.subrange(1, field@.len() - 1)
    } else {
        field@
    };
    proof {
        assert(body@ =~= w);
    }
    let undoubled = if quoted {
        let mut out: Vec<char> = Vec::new();
        let m = body.len();
        let mut j: usize = 0;
        proof {
            assert(w.skip(0) =~= w);
            assert(Seq::<char>::empty() + csv_undouble(w) =~= csv_undouble(w));
        }
        while j < m
            invariant
                m == body@.len(),
                j <= m,
                body@ == w,
                csv_undouble(w) == out@ + csv_undouble(w.skip(j as int)),
            decreases m - j,
        {
            let c = body[j];
            if c == '"' && j + 1 < m && body[j + 1] == '"' {
                out.push('"');
                proof {
                    let tail = w.skip(j as int);
                    assert(tail[0] == '"' && tail.len() >= 2 && tail[1] == '"');
                    assert(tail.skip(2) =~= w.skip(j + 2 as int));
                    assert(out@ + csv_undouble(w.skip(j + 2 as int)) =~= (out@.drop_last() + seq![
                        '"',
                    ]) + csv_undouble(w.skip(j + 2 as int)));
                    assert(out@.drop_last() + (seq!['"'] + csv_undouble(w.skip(j + 2 as int)))
                        =~= (out@.drop_last() + seq!['"']) + csv_undouble(w.skip(j + 2 as int)));
                }
                j = j + 2;
            } else {
                out.push(c);
                proof {
                    let tail = w.skip(j as int);
                    assert(tail[0] == c);
                    assert(!(tail[0] == '"' && tail.len() >= 2 && tail[1] == '"')) by {
                        if tail.len() >= 2 {
                            assert(tail[1] == w[j + 1]);
                        }
                    }
                    assert(tail.skip(1) =~= w.skip(j + 1 as int));
                    assert(out@.drop_last() + (seq![c] + csv_undouble(w.skip(j + 1 as int))) =~= (
                    out@.drop_last() + seq![c]) + csv_undouble(w.skip(j + 1 as int)));
                }
                j = j + 1;
            }
        }
        proof {
            assert(w.skip(m as int) =~= Seq::<char>::empty());
            assert(out@ + Seq::<char>::empty() =~= out@);
            assert(out@ == csv_undouble(w));
        }
        out
    } else {
        body
    };
    let ghost u = if quoted {
        csv_undouble(w)
    } else {
        w
    };
    proof {
        assert(undoubled@ == u);
    }
    let mut out: Vec<char> = Vec::new();
    let m = undoubled.len();
    let mut j: usize = 0;
    proof {
        assert(u.skip(0) =~= u);
        assert(Seq::<char>::empty() + csv_unescape(u) =~= csv_unescape(u));
    }
    while j < m
        invariant
            m == undoubled@.len(),
            j <= m,
            undoubled@ == u,
            csv_unescape(u) == out@ + csv_unescape(u.skip(j as int)),
        decreases m - j,
    {
        let c = undoubled[j];
        if c == '\\' && j + 1 < m {
            let c2 = undoubled[j + 1];
            let mapped = if c2 == 'r' {
                '\r'
            } else if c2 == 'n' {
                '\n'
            } else if c2 == 't' {
                '\t'
            } else {
                c2
            };
            out.push(mapped);
            proof {
                let tail = u.skip(j as int);
                assert(tail[0] == '\\' && tail.len() >= 2);
                assert(tail[1] == u[j + 1]);
                assert(mapped == csv_unescape_char(u[j + 1]));
                assert(tail.skip(2) =~= u.skip(j + 2 as int));
                assert(out@.drop_last() + (seq![mapped] + csv_unescape(u.skip(j + 2 as int))) =~= (
                out@.drop_last() + seq![mapped]) + csv_unescape(u.skip(j + 2 as int)));
            }
            j = j + 2;
        } else {
            out.push(c);
            proof {
                let tail = u.skip(j as int);
                assert(tail[0] == c);
                assert(tail.skip(1) =~= u.skip(j + 1 as int));
                assert(out@.drop_last() + (seq![c] + csv_unescape(u.skip(j + 1 as int))) =~= (
                out@.drop_last() + seq![c]) + csv_unescape(u.skip(j + 1 as int)));
            }
            j = j + 1;
        }
    }
    proof {
        assert(u.skip(m as int) =~= Seq::<char>::empty());
        assert(out@ + Seq::<char>::empty() =~= out@);
        assert(out@ == csv_unescape(u));
    }
    chars_to_string(&out)
}

// --- whole rows ---

/// One encoded row line: the encoded fields joined by commas, closed by a
/// line feed.
pub open spec fn csv_row_line(vals: Seq<Seq<char>>) -> Seq<char>
    decreases vals.len(),
{
    if vals.len() == 0 {
        seq!['\n']
    } else if vals.len() == 1 {
        csv_field(vals[0]) + seq!['\n']
    } else {
        let prior = vals.drop_last();
        csv_row_line(prior).drop_last() + seq![','] + csv_field(vals.last()) + seq!['\n']
    }
}

/// Encodes one result row: each column value escaped and quoted as needed,
/// the fields joined by commas, the line closed by a line feed.
pub fn format_csv_row(values: &Vec<String>) -> (r: String)
    ensures
        r@ == csv_row_line(values.deep_view()),
{
    let ghost vals = values.deep_view();
    let n = values.len();
    let mut out: Vec<char> = Vec::new();
    let mut i: usize = 0;
    while i < n
        invariant
            n == values@.len(),
            vals == values.deep_view(),
            vals.len() == n,
            i <= n,
            i == 0 ==> out@ == Seq::<char>::empty(),
            i > 0 ==> out@ == csv_row_line(vals.take(i as int)).drop_last(),
        decreases n - i,
    {
        proof {
            assert(vals[i as int] == values@[i as int]@);
        }
        if i > 0 {
            out.push(',');
        }
        let field = get_column_value_for_csv(values[i].clone());
        let field_chars = str_to_chars(field.as_str());
        let mut fc = field_chars;
        out.append(&mut fc);
        proof {
            let pre = vals.take(i as int);
            let pre1 = vals.take(i + 1 as int);
            assert(pre1.drop_last() =~= pre);
            assert(pre1.last() == vals[i as int]);
            if i == 0 {
                assert(pre1.len() == 1);
                assert(csv_row_line(pre1) == csv_field(vals[0]) + seq!['\n']);
                assert(out@ =~= (csv_field(vals[0]) + seq!['\n']).drop_last());
            } else {
                assert(csv_row_line(pre1) == csv_row_line(pre).drop_last() + seq![','] + csv_field(
                    vals[i as int],
                ) + seq!['\n']);
                assert(out@ =~= csv_row_line(pre1).drop_last());
            }
        }
        i = i + 1;
    }
    out.push('\n');
    proof {
        if n == 0 {
            assert(out@ =~= csv_row_line(vals));
        } else {
            assert(vals.take(n as int) =~= vals);
            assert(out@ =~= csv_row_line(vals).drop_last().push('\n'));
            assert(csv_row_line(vals).len() > 0 && csv_row_line(vals).last() == '\n') by {
                lemma_row_line_ends_newline(vals);
            }
            assert(out@ =~= csv_row_line(vals));
        }
    }
    chars_to_string(&out)
}

/// A row line always closes with a line feed.
proof fn lemma_row_line_ends_newline(vals: Seq<Seq<char>>)
    ensures
        csv_row_line(vals).len() > 0,
        csv_row_line(vals).last() == '\n',
    decreases vals.len(),
{
    if vals.len() <= 1 {
    }
}

} // verus!
