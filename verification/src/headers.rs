//! The header table: a multi-valued string map with case-insensitive
//! keys.  Keys are stored canonically — each hyphen-delimited segment
//! capitalized, the rest lower-case — so that lookups under any
//! spelling of a name find the same entry, and serialization writes
//! the conventional wire form.

use vstd::prelude::*;

use crate::text::{canon_key_at, to_lower_char, to_upper_char};

verus! {

/// One header name with its ordered values.
#[derive(Clone)]
struct HeaderEntry {
    name: String,
    values: Vec<String>,
}

impl View for HeaderEntry {
    type V = (Seq<char>, Seq<Seq<char>>);

    closed spec fn view(&self) -> Self::V {
        (self.name@, self.values.deep_view())
    }
}

/// A multi-valued mapping from canonicalized header names to their
/// values, in insertion order.
#[derive(Clone)]
pub struct Headers {
    entries: Vec<HeaderEntry>,
}

/// The canonical form of a header name: the first character of each
/// hyphen-delimited segment upper-cased, every other character
/// lower-cased.
pub open spec fn canon_key(s: Seq<char>) -> Seq<char> {
    Seq::new(s.len(), |i: int| canon_key_at(s, i))
}

/// First index in `m` holding `name`, or `m.len()` when absent.
pub open spec fn find_idx(m: Seq<(Seq<char>, Seq<Seq<char>>)>, name: Seq<char>) -> int
    decreases m.len(),
{
    if m.len() == 0 {
        0
    } else if m[0].0 == name {
        0
    } else {
        1 + find_idx(m.drop_first(), name)
    }
}

pub proof fn lemma_find_idx_props(m: Seq<(Seq<char>, Seq<Seq<char>>)>, name: Seq<char>)
    ensures
        0 <= find_idx(m, name) <= m.len(),
        find_idx(m, name) < m.len() ==> m[find_idx(m, name)].0 == name,
        forall|j: int| 0 <= j < find_idx(m, name) ==> m[j].0 != name,
    decreases m.len(),
{
    if m.len() > 0 && m[0].0 != name {
        lemma_find_idx_props(m.drop_first(), name);
        assert forall|j: int| 0 <= j < find_idx(m, name) implies m[j].0 != name by {
            if j > 0 {
                assert(m.drop_first()[j - 1] == m[j]);
            }
        }
    }
}

/// The view of a table after `insert`: the named entry replaced by
/// the given values, or a fresh entry appended.
pub open spec fn spec_insert(
    m: Seq<(Seq<char>, Seq<Seq<char>>)>,
    name: Seq<char>,
    values: Seq<Seq<char>>,
) -> Seq<(Seq<char>, Seq<Seq<char>>)> {
    if find_idx(m, name) < m.len() {
        m.update(find_idx(m, name), (name, values))
    } else {
        m.push((name, values))
    }
}

/// The view of a table after `append`: one value added to the named
/// entry, or a fresh entry appended.
pub open spec fn spec_append(
    m: Seq<(Seq<char>, Seq<Seq<char>>)>,
    name: Seq<char>,
    value: Seq<char>,
) -> Seq<(Seq<char>, Seq<Seq<char>>)> {
    if find_idx(m, name) < m.len() {
        m.update(find_idx(m, name), (name, m[find_idx(m, name)].1.push(value)))
    } else {
        m.push((name, seq![value]))
    }
}

/// The view of a table after `remove`: the named entry dropped.
pub open spec fn spec_remove(
    m: Seq<(Seq<char>, Seq<Seq<char>>)>,
    name: Seq<char>,
) -> Seq<(Seq<char>, Seq<Seq<char>>)> {
    if find_idx(m, name) < m.len() {
        m.remove(find_idx(m, name))
    } else {
        m
    }
}

/// The values stored under a name in an entry sequence.
pub open spec fn assoc_get(
    m: Seq<(Seq<char>, Seq<Seq<char>>)>,
    name: Seq<char>,
) -> Option<Seq<Seq<char>>> {
    if find_idx(m, name) < m.len() {
        Some(m[find_idx(m, name)].1)
    } else {
        None
    }
}

/// `find_idx` returns the first matching index, so exhibiting one
/// pins it down.
pub proof fn lemma_find_idx_is(m: Seq<(Seq<char>, Seq<Seq<char>>)>, name: Seq<char>, i: int)
    requires
        0 <= i <= m.len(),
        forall|j: int| 0 <= j < i ==> m[j].0 != name,
        i < m.len() ==> m[i].0 == name,
    ensures
        find_idx(m, name) == if i < m.len() {
            i
        } else {
            m.len() as int
        },
    decreases i,
{
    if i == 0 {
        if m.len() > 0 && m[0].0 != name {
            lemma_find_idx_props(m, name);
            assert(false) by {
                assert(m[find_idx(m, name)].0 == name);
            }
        }
    } else {
        assert(m[0].0 != name);
        lemma_find_idx_is(m.drop_first(), name, i - 1);
        assert forall|j: int| 0 <= j < i - 1 implies m.drop_first()[j].0 != name by {
            assert(m.drop_first()[j] == m[j + 1]);
        }
    }
}

/// What `insert` does to lookups: the named entry now holds exactly
/// the given values, every other name is untouched.
pub proof fn lemma_get_insert(
    m: Seq<(Seq<char>, Seq<Seq<char>>)>,
    name: Seq<char>,
    values: Seq<Seq<char>>,
)
    ensures
        assoc_get(spec_insert(m, name, values), name) == Some(values),
        forall|n2: Seq<char>|
            n2 != name ==> #[trigger] assoc_get(spec_insert(m, name, values), n2) == assoc_get(
                m,
                n2,
            ),
{
    lemma_find_idx_props(m, name);
    let r = spec_insert(m, name, values);
    let i = find_idx(m, name);
    if i < m.len() {
        lemma_find_idx_is(r, name, i);
    } else {
        lemma_find_idx_is(r, name, m.len() as int);
    }
    assert forall|n2: Seq<char>| n2 != name implies #[trigger] assoc_get(r, n2) == assoc_get(
        m,
        n2,
    ) by {
        lemma_find_idx_props(m, n2);
        lemma_find_idx_props(r, n2);
        let j = find_idx(m, n2);
        if j < m.len() {
            assert(r[j].0 == n2) by {
                assert(m[j].0 == n2);
            }
            lemma_find_idx_is(r, n2, j);
        } else {
            assert forall|q: int| 0 <= q < r.len() implies r[q].0 != n2 by {
                if i < m.len() {
                    if q != i {
                        assert(r[q] == m[q]);
                    }
                } else {
                    if q < m.len() {
                        assert(r[q] == m[q]);
                    }
                }
            }
            lemma_find_idx_is(r, n2, r.len() as int);
        }
    }
}

/// What `remove` does to lookups: the named entry is gone, every
/// other name is untouched — provided each name occurs only once.
pub proof fn lemma_get_remove(m: Seq<(Seq<char>, Seq<Seq<char>>)>, name: Seq<char>)
    requires
        forall|i: int, j: int| 0 <= i < j < m.len() ==> m[i].0 != m[j].0,
    ensures
        assoc_get(spec_remove(m, name), name) is None,
        forall|n2: Seq<char>|
            n2 != name ==> #[trigger] assoc_get(spec_remove(m, name), n2) == assoc_get(m, n2),
{
    lemma_find_idx_props(m, name);
    let i = find_idx(m, name);
    let r = spec_remove(m, name);
    if i < m.len() {
        assert forall|j: int| 0 <= j < r.len() implies r[j].0 != name by {
            if j < i {
                assert(r[j] == m[j]);
            } else {
                assert(r[j] == m[j + 1]);
            }
        }
        lemma_find_idx_is(r, name, r.len() as int);
        assert forall|n2: Seq<char>| n2 != name implies #[trigger] assoc_get(r, n2) == assoc_get(
            m,
            n2,
        ) by {
            lemma_find_idx_props(m, n2);
            let j = find_idx(m, n2);
            if j < m.len() {
                if j < i {
                    assert(r[j] == m[j]);
                    assert forall|q: int| 0 <= q < j implies r[q].0 != n2 by {
                        assert(r[q] == m[q]);
                    }
                    lemma_find_idx_is(r, n2, j);
                } else {
                    assert(j != i);
                    assert(r[j - 1] == m[j]);
                    assert forall|q: int| 0 <= q < j - 1 implies r[q].0 != n2 by {
                        if q < i {
                            assert(r[q] == m[q]);
                        } else {
                            assert(r[q] == m[q + 1]);
                        }
                    }
                    lemma_find_idx_is(r, n2, j - 1);
                }
            } else {
                assert forall|q: int| 0 <= q < r.len() implies r[q].0 != n2 by {
                    if q < i {
                        assert(r[q] == m[q]);
                    } else {
                        assert(r[q] == m[q + 1]);
                    }
                }
                lemma_find_idx_is(r, n2, r.len() as int);
            }
        }
    }
}

impl View for Headers {
    type V = Seq<(Seq<char>, Seq<Seq<char>>)>;

    /// The table's entries: name and values, in insertion order.
    closed spec fn view(&self) -> Self::V {
        Seq::new(self.entries.len() as nat, |i: int| self.entries[i]@)
    }
}

/// Canonicalization maps a name already canonical to itself.
pub proof fn lemma_canon_idempotent(s: Seq<char>)
    ensures
        canon_key(canon_key(s)) == canon_key(s),
{
    let t = canon_key(s);
    assert forall|i: int| 0 <= i < t.len() implies canon_key(t)[i] == t[i] by {
        crate::text::lemma_case_char(s[i]);
        if i > 0 {
            crate::text::lemma_case_char(s[i - 1]);
            assert((t[i - 1] == '-') == (s[i - 1] == '-'));
        }
    }
    assert(canon_key(t) =~= t);
}

impl Headers {
    /// Every name is stored canonically and only once, and no entry
    /// is without values.
    pub open spec fn wf(&self) -> bool {
        &&& forall|i: int|
            0 <= i < self@.len() ==> (#[trigger] self@[i].0) == canon_key(self@[i].0)
        &&& forall|i: int, j: int| 0 <= i < j < self@.len() ==> self@[i].0 != self@[j].0
        &&& forall|i: int| 0 <= i < self@.len() ==> (#[trigger] self@[i].1).len() > 0
    }

    /// The values stored under a name already in canonical form.
    pub open spec fn spec_get(&self, name: Seq<char>) -> Option<Seq<Seq<char>>> {
        assoc_get(self@, name)
    }

    pub fn new() -> (r: Headers)
        ensures
            r.wf(),
            r@ =~= Seq::<(Seq<char>, Seq<Seq<char>>)>::empty(),
    {
        Headers { entries: Vec::new() }
    }

    fn find_entry(&self, canon: &str) -> (r: usize)
        requires
            canon@ == canon_key(canon@),
        ensures
            r == find_idx(self@, canon@),
    {
        let n = self.entries.len();
        let mut i: usize = 0;
        proof {
            lemma_find_idx_props(self@, canon@);
        }
        while i < n
            invariant
                n == self@.len(),
                0 <= i <= n,
                0 <= find_idx(self@, canon@) <= n,
                find_idx(self@, canon@) < n ==> self@[find_idx(self@, canon@)].0 == canon@,
                forall|j: int| 0 <= j < find_idx(self@, canon@) ==> self@[j].0 != canon@,
                forall|j: int| 0 <= j < i ==> self@[j].0 != canon@,
            decreases n - i,
        {
            if crate::text::str_eq(self.entries[i].name.as_str(), canon) {
                assert(self@[i as int].0 == canon@);
                assert(find_idx(self@, canon@) <= i);
                return i;
            }
            i += 1;
        }
        assert(find_idx(self@, canon@) == n) by {
            if find_idx(self@, canon@) < n {
                assert(self@[find_idx(self@, canon@)].0 == canon@);
            }
        }
        n
    }

    /// Replaces all values stored under the (case-folded) name with
    /// the one given.
    pub fn insert(&mut self, name: &str, value: &str)
        requires
            old(self).wf(),
        ensures
            final(self).wf(),
            final(self)@ == spec_insert(old(self)@, canon_key(name@), seq![value@]),
    {
        let canon = capitalize_key(name);
        proof {
            lemma_find_idx_props(self@, canon@);
            lemma_canon_idempotent(name@);
        }
        let idx = self.find_entry(canon.as_str());
        let mut values: Vec<String> = Vec::new();
        values.push(value.to_owned());
        assert(values.deep_view() =~= seq![value@]);
        if idx < self.entries.len() {
            self.entries[idx] = HeaderEntry { name: canon, values };
            assert(self@ =~= spec_insert(old(self)@, canon_key(name@), seq![value@]));
        } else {
            self.entries.push(HeaderEntry { name: canon, values });
            assert(self@ =~= spec_insert(old(self)@, canon_key(name@), seq![value@]));
        }
        proof {
            lemma_insert_wf(old(self)@, canon_key(name@), seq![value@]);
        }
    }

    /// Adds one more value under the (case-folded) name, keeping any
    /// already stored.
    pub fn append(&mut self, name: &str, value: &str)
        requires
            old(self).wf(),
        ensures
            final(self).wf(),
            final(self)@ == spec_append(old(self)@, canon_key(name@), value@),
    {
        let canon = capitalize_key(name);
        proof {
            lemma_find_idx_props(self@, canon@);
            lemma_canon_idempotent(name@);
        }
        let idx = self.find_entry(canon.as_str());
        if idx < self.entries.len() {
            self.entries[idx].values.push(value.to_owned());
            assert(self@[idx as int].1 =~= old(self)@[idx as int].1.push(value@));
            assert(self@ =~= spec_append(old(self)@, canon_key(name@), value@));
        } else {
            let mut values: Vec<String> = Vec::new();
            values.push(value.to_owned());
            assert(values.deep_view() =~= seq![value@]);
            self.entries.push(HeaderEntry { name: canon, values });
            assert(self@ =~= spec_append(old(self)@, canon_key(name@), value@));
        }
        proof {
            lemma_append_wf(old(self)@, canon_key(name@), value@);
        }
    }

    /// Drops the entry stored under the (case-folded) name, if any.
    pub fn remove(&mut self, name: &str)
        requires
            old(self).wf(),
        ensures
            final(self).wf(),
            final(self)@ == spec_remove(old(self)@, canon_key(name@)),
    {
        let canon = capitalize_key(name);
        proof {
            lemma_find_idx_props(self@, canon@);
            lemma_canon_idempotent(name@);
        }
        let idx = self.find_entry(canon.as_str());
        if idx < self.entries.len() {
            self.entries.remove(idx);
            assert(self@ =~= spec_remove(old(self)@, canon_key(name@)));
        } else {
            assert(self@ =~= spec_remove(old(self)@, canon_key(name@)));
        }
        proof {
            lemma_remove_wf(old(self)@, canon_key(name@));
        }
    }

    /// The first value stored under the (case-folded) name.
    pub fn get(&self, name: &str) -> (r: Option<&String>)
        requires
            self.wf(),
        ensures
            match self.spec_get(canon_key(name@)) {
                Some(vs) => r is Some && r->0@ == vs[0],
                None => r is None,
            },
    {
        let canon = capitalize_key(name);
        proof {
            lemma_canon_idempotent(name@);
        }
        let idx = self.find_entry(canon.as_str());
        proof {
            lemma_find_idx_props(self@, canon@);
        }
        if idx < self.entries.len() {
            Some(&self.entries[idx].values[0])
        } else {
            None
        }
    }

    /// Whether any value is stored under the (case-folded) name.
    pub fn contains_key(&self, name: &str) -> (r: bool)
        requires
            self.wf(),
        ensures
            r == (self.spec_get(canon_key(name@)) is Some),
    {
        let canon = capitalize_key(name);
        proof {
            lemma_canon_idempotent(name@);
        }
        let idx = self.find_entry(canon.as_str());
        idx < self.entries.len()
    }
}

pub proof fn lemma_insert_wf(
    m: Seq<(Seq<char>, Seq<Seq<char>>)>,
    name: Seq<char>,
    values: Seq<Seq<char>>,
)
    requires
        forall|i: int| 0 <= i < m.len() ==> (#[trigger] m[i].0) == canon_key(m[i].0),
        forall|i: int, j: int| 0 <= i < j < m.len() ==> m[i].0 != m[j].0,
        forall|i: int| 0 <= i < m.len() ==> (#[trigger] m[i].1).len() > 0,
        name == canon_key(name),
        values.len() > 0,
    ensures
        ({
            let r = spec_insert(m, name, values);
            &&& forall|i: int| 0 <= i < r.len() ==> (#[trigger] r[i].0) == canon_key(r[i].0)
            &&& forall|i: int, j: int| 0 <= i < j < r.len() ==> r[i].0 != r[j].0
            &&& forall|i: int| 0 <= i < r.len() ==> (#[trigger] r[i].1).len() > 0
        }),
{
    lemma_find_idx_props(m, name);
}

proof fn lemma_append_wf(m: Seq<(Seq<char>, Seq<Seq<char>>)>, name: Seq<char>, value: Seq<char>)
    requires
        forall|i: int| 0 <= i < m.len() ==> (#[trigger] m[i].0) == canon_key(m[i].0),
        forall|i: int, j: int| 0 <= i < j < m.len() ==> m[i].0 != m[j].0,
        forall|i: int| 0 <= i < m.len() ==> (#[trigger] m[i].1).len() > 0,
        name == canon_key(name),
    ensures
        ({
            let r = spec_append(m, name, value);
            &&& forall|i: int| 0 <= i < r.len() ==> (#[trigger] r[i].0) == canon_key(r[i].0)
            &&& forall|i: int, j: int| 0 <= i < j < r.len() ==> r[i].0 != r[j].0
            &&& forall|i: int| 0 <= i < r.len() ==> (#[trigger] r[i].1).len() > 0
        }),
{
    lemma_find_idx_props(m, name);
}

proof fn lemma_remove_wf(m: Seq<(Seq<char>, Seq<Seq<char>>)>, name: Seq<char>)
    requires
        forall|i: int| 0 <= i < m.len() ==> (#[trigger] m[i].0) == canon_key(m[i].0),
        forall|i: int, j: int| 0 <= i < j < m.len() ==> m[i].0 != m[j].0,
        forall|i: int| 0 <= i < m.len() ==> (#[trigger] m[i].1).len() > 0,
    ensures
        ({
            let r = spec_remove(m, name);
            &&& forall|i: int| 0 <= i < r.len() ==> (#[trigger] r[i].0) == canon_key(r[i].0)
            &&& forall|i: int, j: int| 0 <= i < j < r.len() ==> r[i].0 != r[j].0
            &&& forall|i: int| 0 <= i < r.len() ==> (#[trigger] r[i].1).len() > 0
        }),
{
    lemma_find_idx_props(m, name);
}

/// One serialized header line.
pub open spec fn line_of(name: Seq<char>, value: Seq<char>) -> Seq<char> {
    name + ": "@ + value
}

/// The serialized lines of one entry, one per value.
pub open spec fn entry_lines(e: (Seq<char>, Seq<Seq<char>>)) -> Seq<Seq<char>> {
    e.1.map_values(|v: Seq<char>| line_of(e.0, v))
}

/// Every serialized line of a table, in order.
pub open spec fn all_lines(m: Seq<(Seq<char>, Seq<Seq<char>>)>) -> Seq<Seq<char>> {
    m.map_values(|e: (Seq<char>, Seq<Seq<char>>)| entry_lines(e)).flatten()
}

/// Lines joined by CRLF, with no trailing separator.
pub open spec fn join_crlf(lines: Seq<Seq<char>>) -> Seq<char>
    decreases lines.len(),
{
    if lines.len() == 0 {
        Seq::empty()
    } else if lines.len() == 1 {
        lines[0]
    } else {
        lines[0] + "\r\n"@ + join_crlf(lines.drop_first())
    }
}

proof fn lemma_join_push(s: Seq<Seq<char>>, x: Seq<char>)
    ensures
        join_crlf(s.push(x)) == if s.len() == 0 {
            x
        } else {
            join_crlf(s) + "\r\n"@ + x
        },
    decreases s.len(),
{
    if s.len() == 0 {
        assert(s.push(x) =~= seq![x]);
        assert(join_crlf(seq![x]) == x);
    } else {
        assert(s.push(x).drop_first() =~= s.drop_first().push(x));
        lemma_join_push(s.drop_first(), x);
        assert(s.push(x)[0] == s[0]);
        if s.len() == 1 {
            assert(join_crlf(s.push(x)) == s[0] + "\r\n"@ + join_crlf(s.drop_first().push(x)));
            assert(join_crlf(s.drop_first().push(x)) == x);
            assert(join_crlf(s) == s[0]);
        } else {
            assert(join_crlf(s.push(x)) == s[0] + "\r\n"@ + (join_crlf(s.drop_first()) + "\r\n"@
                + x));
            assert(s[0] + "\r\n"@ + (join_crlf(s.drop_first()) + "\r\n"@ + x) =~= (s[0] + "\r\n"@
                + join_crlf(s.drop_first())) + "\r\n"@ + x);
        }
    }
}

/// First index at or after `i` where a `": "` separator starts, or
/// the length when there is none.
pub open spec fn find_sep(s: Seq<char>, i: int) -> int
    decreases s.len() - i,
{
    if i < 0 || i + 1 >= s.len() {
        s.len() as int
    } else if s[i] == ':' && s[i + 1] == ' ' {
        i
    } else {
        find_sep(s, i + 1)
    }
}

pub proof fn lemma_find_sep_props(s: Seq<char>, i: int)
    requires
        0 <= i <= s.len(),
    ensures
        i <= find_sep(s, i) <= s.len(),
        find_sep(s, i) + 1 < s.len() ==> s[find_sep(s, i)] == ':' && s[find_sep(s, i) + 1] == ' ',
        forall|j: int|
            i <= j < find_sep(s, i) && j + 1 < s.len() ==> !((#[trigger] s[j]) == ':' && s[j + 1]
                == ' '),
    decreases s.len() - i,
{
    if i + 1 < s.len() && !(s[i] == ':' && s[i + 1] == ' ') {
        lemma_find_sep_props(s, i + 1);
    }
}

/// How a wire header line splits at its first `": "`: the name
/// before it and the value after it, or nothing when the separator
/// is absent.
pub open spec fn wire_split(line: Seq<char>) -> Option<(Seq<char>, Seq<char>)> {
    let i = find_sep(line, 0);
    if i < line.len() {
        Some((line.take(i), line.skip(i + 2)))
    } else {
        None
    }
}

impl Headers {
    /// Serializes every value of every header as `Name: value`
    /// lines joined by CRLF.
    pub fn to_string(&self) -> (r: String)
        ensures
            r@ == join_crlf(all_lines(self@)),
    {
        let mut lines: Vec<String> = Vec::new();
        let n = self.entries.len();
        let mut i: usize = 0;
        assert(self@.take(0).map_values(
            |e: (Seq<char>, Seq<Seq<char>>)| entry_lines(e),
        ).flatten() =~= Seq::<Seq<char>>::empty());
        while i < n
            invariant
                n == self@.len(),
                0 <= i <= n,
                lines.deep_view() =~= all_lines(self@.take(i as int)),
            decreases n - i,
        {
            let vn = self.entries[i].values.len();
            let mut j: usize = 0;
            assert(entry_lines(self@[i as int]).take(0) =~= Seq::<Seq<char>>::empty());
            assert(lines.deep_view() =~= all_lines(self@.take(i as int)) + entry_lines(
                self@[i as int],
            ).take(0));
            while j < vn
                invariant
                    n == self@.len(),
                    0 <= i < n,
                    vn == self@[i as int].1.len(),
                    vn == self.entries[i as int].values.len(),
                    0 <= j <= vn,
                    lines.deep_view() =~= all_lines(self@.take(i as int)) + entry_lines(
                        self@[i as int],
                    ).take(j as int),
                decreases vn - j,
            {
                let mut line = self.entries[i].name.clone();
                line.append(": ");
                line.append(self.entries[i].values[j].as_str());
                assert(line@ == line_of(self@[i as int].0, self@[i as int].1[j as int])) by {
                    assert(self@[i as int].1[j as int] == self.entries[i as int].values[
                    j as int]@);
                }
                let ghost dv0 = lines.deep_view();
                lines.push(line);
                assert(lines.deep_view() =~= dv0.push(line@));
                assert(entry_lines(self@[i as int]).take(j + 1) =~= entry_lines(
                    self@[i as int],
                ).take(j as int).push(line@));
                assert(lines.deep_view() =~= all_lines(self@.take(i as int)) + entry_lines(
                    self@[i as int],
                ).take(j + 1));
                j += 1;
            }
            assert(entry_lines(self@[i as int]).take(vn as int) =~= entry_lines(self@[i as int]));
            proof {
                let mapped = self@.take(i as int).map_values(
                    |e: (Seq<char>, Seq<Seq<char>>)| entry_lines(e),
                );
                mapped.lemma_flatten_push(entry_lines(self@[i as int]));
                assert(self@.take(i + 1).map_values(
                    |e: (Seq<char>, Seq<Seq<char>>)| entry_lines(e),
                ) =~= mapped.push(entry_lines(self@[i as int])));
            }
            i += 1;
            assert(lines.deep_view() =~= all_lines(self@.take(i as int)));
        }
        assert(self@.take(n as int) =~= self@);
        let ghost ls = lines.deep_view();
        let mut out = String::new();
        let ln = lines.len();
        let mut k: usize = 0;
        assert(out@ =~= join_crlf(ls.take(0)));
        while k < ln
            invariant
                ln == lines.len(),
                ls == lines.deep_view(),
                ls.len() == ln,
                0 <= k <= ln,
                out@ == join_crlf(ls.take(k as int)),
            decreases ln - k,
        {
            if k > 0 {
                out.append("\r\n");
            }
            out.append(lines[k].as_str());
            proof {
                lemma_join_push(ls.take(k as int), ls[k as int]);
                assert(ls.take(k + 1) =~= ls.take(k as int).push(ls[k as int]));
                assert(lines[k as int]@ == ls[k as int]);
            }
            k += 1;
        }
        assert(ls.take(ln as int) =~= ls);
        out
    }

    /// Splits a wire line at its first `": "` and stores the pair;
    /// fails when the separator is absent, leaving the table as it
    /// was.
    pub fn insert_header_line(&mut self, line: &str) -> (r: Result<(), ()>)
        requires
            old(self).wf(),
        ensures
            final(self).wf(),
            r is Ok <==> wire_split(line@) is Some,
            r is Ok ==> final(self)@ == spec_insert(
                old(self)@,
                canon_key(wire_split(line@).unwrap().0),
                seq![wire_split(line@).unwrap().1],
            ),
            r is Err ==> final(self)@ == old(self)@,
    {
        let n = line.unicode_len();
        let mut j: usize = 0;
        loop
            invariant
                n == line@.len(),
                0 <= j <= n,
                find_sep(line@, 0) == find_sep(line@, j as int),
            ensures
                find_sep(line@, 0) == if j < n {
                    j as int
                } else {
                    n as int
                },
                j <= n,
            decreases n - j,
        {
            if n - j <= 1 {
                j = n;
                break;
            }
            if line.get_char(j) == ':' && line.get_char(j + 1) == ' ' {
                break;
            }
            j += 1;
        }
        if j < n {
            assert(j + 2 <= n) by {
                lemma_find_sep_props(line@, 0);
            }
            let key = line.substring_char(0, j);
            let value = line.substring_char(j + 2, n);
            assert(key@ =~= wire_split(line@).unwrap().0);
            assert(value@ =~= wire_split(line@).unwrap().1);
            self.insert(key, value);
            Ok(())
        } else {
            Err(())
        }
    }
}

/// The value of the first `key=value` pair whose key matches, among
/// the `;`-separated, whitespace-trimmed pairs of a `Cookie` header
/// value.
pub open spec fn cookie_lookup(s: Seq<char>, name: Seq<char>) -> Option<Seq<char>>
    decreases s.len(),
{
    let semi = crate::text::find_from(s, 0, ';');
    let t = crate::text::trim_with(s.take(semi), crate::text::ws_pred());
    let eq = crate::text::find_from(t, 0, '=');
    let hit = if eq < t.len() && t.take(eq) == name {
        Some(t.skip(eq + 1))
    } else {
        None
    };
    if hit is Some {
        hit
    } else if 0 <= semi < s.len() {
        cookie_lookup(s.skip(semi + 1), name)
    } else {
        None
    }
}

impl Headers {
    /// Appends a formatted `name=value` pair under `Set-Cookie`.
    pub fn add_set_cookie(&mut self, name: &str, value: &str)
        requires
            old(self).wf(),
        ensures
            final(self).wf(),
            final(self)@ == spec_append(
                old(self)@,
                canon_key("Set-Cookie"@),
                name@ + seq!['='] + value@,
            ),
    {
        let mut cookie = name.to_owned();
        crate::text::push_char(&mut cookie, '=');
        cookie.append(value);
        assert(cookie@ =~= name@ + seq!['='] + value@);
        self.append("Set-Cookie", cookie.as_str());
    }

    /// Whether `Transfer-Encoding` is present with first value
    /// exactly `chunked`.
    pub open spec fn spec_is_chunked(&self) -> bool {
        match self.spec_get(canon_key("Transfer-Encoding"@)) {
            Some(vs) => vs[0] == "chunked"@,
            None => false,
        }
    }

    pub fn is_chunked(&self) -> (r: bool)
        requires
            self.wf(),
        ensures
            r == self.spec_is_chunked(),
    {
        match self.get("Transfer-Encoding") {
            Some(v) => crate::text::str_eq(v.as_str(), "chunked"),
            None => false,
        }
    }

    /// The first match for `name` among the `;`-separated
    /// `key=value` pairs of the `Cookie` request header.
    pub fn get_cookie(&self, name: &str) -> (r: Option<String>)
        requires
            self.wf(),
        ensures
            match self.spec_get(canon_key("Cookie"@)) {
                None => r is None,
                Some(vs) => match cookie_lookup(vs[0], name@) {
                    None => r is None,
                    Some(v) => r is Some && r.unwrap()@ == v,
                },
            },
    {
        let header = match self.get("Cookie") {
            Some(h) => h,
            None => {
                return None;
            },
        };
        let hs = header.as_str();
        let n = hs.unicode_len();
        let mut pos: usize = 0;
        assert(hs@.skip(0) =~= hs@);
        loop
            invariant
                n == hs@.len(),
                0 <= pos <= n,
                cookie_lookup(hs@, name@) == cookie_lookup(hs@.skip(pos as int), name@),
                self.wf(),
                self.spec_get(canon_key("Cookie"@)) is Some,
                self.spec_get(canon_key("Cookie"@)).unwrap()[0] == hs@,
            decreases n - pos,
        {
            let ghost suffix = hs@.skip(pos as int);
            let semi = crate::text::find_char_from(hs, pos, ';');
            proof {
                crate::text::lemma_find_from_range(hs@, pos as int, ';');
                crate::text::lemma_find_from_shift(hs@, pos as int, pos as int, ';');
                assert(crate::text::find_from(suffix, 0, ';') == semi - pos);
            }
            let seg = hs.substring_char(pos, semi);
            assert(seg@ =~= suffix.take(semi - pos));
            let t = crate::text::trim_ws_str(seg);
            let ts = t.as_str();
            let tn = ts.unicode_len();
            let eq = crate::text::find_char_from(ts, 0, '=');
            proof {
                crate::text::lemma_find_from_range(t@, 0, '=');
            }
            if eq < tn {
                let k = ts.substring_char(0, eq);
                assert(k@ =~= t@.take(eq as int));
                if crate::text::str_eq(k, name) {
                    let v = ts.substring_char(eq + 1, tn);
                    assert(v@ =~= t@.skip(eq as int + 1));
                    assert(cookie_lookup(suffix, name@) == Some(t@.skip(eq as int + 1)));
                    return Some(v.to_owned());
                }
            }
            assert(!(eq < tn && t@.take(eq as int) == name@));
            if semi < n {
                assert(cookie_lookup(suffix, name@) == cookie_lookup(
                    suffix.skip(semi - pos + 1),
                    name@,
                ));
                assert(suffix.skip(semi - pos + 1) =~= hs@.skip(semi + 1));
                pos = semi + 1;
            } else {
                assert(cookie_lookup(suffix, name@) is None);
                return None;
            }
        }
    }
}

/// Applies the effect of `insert_header_line` for each line, in
/// order.
pub open spec fn reparse_lines(
    lines: Seq<Seq<char>>,
    m: Seq<(Seq<char>, Seq<Seq<char>>)>,
) -> Seq<(Seq<char>, Seq<Seq<char>>)>
    decreases lines.len(),
{
    if lines.len() == 0 {
        m
    } else {
        match wire_split(lines[0]) {
            Some(kv) => reparse_lines(
                lines.drop_first(),
                spec_insert(m, canon_key(kv.0), seq![kv.1]),
            ),
            None => reparse_lines(lines.drop_first(), m),
        }
    }
}

proof fn lemma_find_sep_stops(line: Seq<char>, name: Seq<char>, j: int)
    requires
        0 <= j <= name.len(),
        line.len() >= name.len() + 2,
        forall|i: int| 0 <= i < name.len() ==> line[i] == (#[trigger] name[i]) && name[i] != ':',
        line[name.len() as int] == ':',
        line[name.len() as int + 1] == ' ',
    ensures
        find_sep(line, j) == name.len(),
    decreases name.len() - j,
{
    if j < name.len() {
        assert(name[j] != ':');
        assert(line[j] == name[j]);
        lemma_find_sep_stops(line, name, j + 1);
    }
}

/// A line serialized from a colon-free name splits back into
/// exactly that name and value.
pub proof fn lemma_wire_split_line_of(name: Seq<char>, v: Seq<char>)
    requires
        forall|i: int| 0 <= i < name.len() ==> (#[trigger] name[i]) != ':',
    ensures
        wire_split(line_of(name, v)) == Some((name, v)),
{
    reveal_strlit(": ");
    let line = line_of(name, v);
    assert(": "@.len() == 2);
    assert(line.len() == name.len() + 2 + v.len());
    assert forall|i: int| 0 <= i < name.len() implies line[i] == name[i] && name[i] != ':' by {
        assert(line[i] == name[i]);
    }
    assert(line[name.len() as int] == ':');
    assert(line[name.len() as int + 1] == ' ');
    lemma_find_sep_stops(line, name, 0);
    assert(line.take(name.len() as int) =~= name);
    assert(line.skip(name.len() as int + 2) =~= v);
}

/// Serializing a table and re-inserting each line into an empty
/// table rebuilds the same table, for tables whose headers carry a
/// single value each and whose names hold no colon.
pub proof fn lemma_header_lines_round_trip(m: Seq<(Seq<char>, Seq<Seq<char>>)>)
    requires
        forall|i: int| 0 <= i < m.len() ==> (#[trigger] m[i].0) == canon_key(m[i].0),
        forall|i: int, j: int| 0 <= i < j < m.len() ==> m[i].0 != m[j].0,
        forall|i: int| 0 <= i < m.len() ==> (#[trigger] m[i].1).len() == 1,
        forall|i: int, k: int|
            0 <= i < m.len() && 0 <= k < m[i].0.len() ==> (#[trigger] m[i].0[k]) != ':',
    ensures
        reparse_lines(all_lines(m), Seq::empty()) == m,
{
    assert(m.take(0) =~= Seq::<(Seq<char>, Seq<Seq<char>>)>::empty());
    assert(m.skip(0) =~= m);
    lemma_reparse_step(m, 0);
}

proof fn lemma_reparse_step(m: Seq<(Seq<char>, Seq<Seq<char>>)>, k: int)
    requires
        0 <= k <= m.len(),
        forall|i: int| 0 <= i < m.len() ==> (#[trigger] m[i].0) == canon_key(m[i].0),
        forall|i: int, j: int| 0 <= i < j < m.len() ==> m[i].0 != m[j].0,
        forall|i: int| 0 <= i < m.len() ==> (#[trigger] m[i].1).len() == 1,
        forall|i: int, kk: int|
            0 <= i < m.len() && 0 <= kk < m[i].0.len() ==> (#[trigger] m[i].0[kk]) != ':',
    ensures
        reparse_lines(all_lines(m.skip(k)), m.take(k)) == m,
    decreases m.len() - k,
{
    let lf = |e: (Seq<char>, Seq<Seq<char>>)| entry_lines(e);
    if k == m.len() {
        assert(m.skip(k) =~= Seq::<(Seq<char>, Seq<Seq<char>>)>::empty());
        assert(m.skip(k).map_values(lf) =~= Seq::<Seq<Seq<char>>>::empty());
        assert(all_lines(m.skip(k)).len() == 0);
        assert(m.take(k) =~= m);
    } else {
        let e = m[k];
        let rest = m.skip(k);
        let lines = all_lines(rest);
        assert(rest[0] == e);
        assert(rest.map_values(lf)[0] == entry_lines(e));
        assert(rest.map_values(lf).drop_first() =~= rest.drop_first().map_values(lf));
        assert(lines == entry_lines(e) + all_lines(rest.drop_first()));
        assert(rest.drop_first() =~= m.skip(k + 1));
        assert(entry_lines(e).len() == 1);
        assert(entry_lines(e)[0] == line_of(e.0, e.1[0]));
        assert(lines.len() >= 1);
        assert(lines[0] == line_of(e.0, e.1[0]));
        assert(lines.drop_first() =~= all_lines(m.skip(k + 1)));
        assert forall|kk: int| 0 <= kk < e.0.len() implies (#[trigger] e.0[kk]) != ':' by {
            assert(m[k].0[kk] != ':');
        }
        lemma_wire_split_line_of(e.0, e.1[0]);
        lemma_find_idx_props(m.take(k), e.0);
        assert(find_idx(m.take(k), e.0) == k) by {
            if find_idx(m.take(k), e.0) < k {
                assert(m.take(k)[find_idx(m.take(k), e.0)].0 == e.0);
            }
        }
        assert(seq![e.1[0]] =~= e.1);
        assert(spec_insert(m.take(k), e.0, seq![e.1[0]]) =~= m.take(k + 1));
        assert(canon_key(e.0) == e.0);
        lemma_reparse_step(m, k + 1);
        assert(reparse_lines(lines, m.take(k)) == reparse_lines(
            all_lines(m.skip(k + 1)),
            m.take(k + 1),
        ));
    }
}

/// Canonicalizes a header name: `content-type` becomes
/// `Content-Type`.
pub fn capitalize_key(key: &str) -> (r: String)
    ensures
        r@ == canon_key(key@),
{
    let n = key.unicode_len();
    let mut out = String::new();
    let mut i: usize = 0;
    let mut after_dash = true;
    while i < n
        invariant
            n == key@.len(),
            0 <= i <= n,
            out@ =~= canon_key(key@).take(i as int),
            after_dash == (i == 0 || key@[i as int - 1] == '-'),
        decreases n - i,
    {
        let c = key.get_char(i);
        let mapped = if after_dash {
            to_upper_char(c)
        } else {
            to_lower_char(c)
        };
        crate::text::push_char(&mut out, mapped);
        after_dash = c == '-';
        i += 1;
        assert(out@ =~= canon_key(key@).take(i as int));
    }
    assert(canon_key(key@).take(n as int) =~= canon_key(key@));
    out
}

} // verus!
