//! The datagram key/value store: each datagram either inserts a key (first
//! `=` splits key from value), queries a key, clears the store, or asks for
//! the server version. A key named `version` can be queried but never
//! written.

use vstd::prelude::*;

verus! {

/// Whether `char::is_whitespace` accepts the character.
pub uninterp spec fn is_ws(c: char) -> bool;

/// Relies on char::is_whitespace: the result depends on the character alone.
#[verifier::external_body]
fn char_whitespace(c: char) -> (r: bool)
    ensures
        r == is_ws(c),
{
    c.is_whitespace()
}

/// The text without its leading whitespace.
pub open spec fn spec_trim_start(s: Seq<char>) -> Seq<char>
    decreases s.len(),
{
    if s.len() == 0 {
        s
    } else if is_ws(s.first()) {
        spec_trim_start(s.drop_first())
    } else {
        s
    }
}

/// The text without its trailing whitespace.
pub open spec fn spec_trim_end(s: Seq<char>) -> Seq<char>
    decreases s.len(),
{
    if s.len() == 0 {
        s
    } else if is_ws(s.last()) {
        spec_trim_end(s.drop_last())
    } else {
        s
    }
}

/// The text without leading and trailing whitespace.
pub open spec fn spec_trim(s: Seq<char>) -> Seq<char> {
    spec_trim_end(spec_trim_start(s))
}

/// The position of the first `=`, or the length when there is none.
pub open spec fn first_eq(s: Seq<char>) -> int
    decreases s.len(),
{
    if s.len() == 0 {
        0
    } else if s.first() == '=' {
        0
    } else {
        1 + first_eq(s.drop_first())
    }
}

/// One parsed datagram, at the specification level.
pub enum ReqSpec {
    Insert(Seq<char>, Seq<char>),
    Query(Seq<char>),
    Clear,
    Version,
}

/// What a datagram's text asks for: a first `=` splits an insertion into key
/// and value, except that the key `version` is silently ignored; without
/// `=`, the trimmed text is the version request, the clear request, or a
/// query for that key.
pub open spec fn spec_parse(s: Seq<char>) -> Option<ReqSpec> {
    let k = first_eq(s);
    if k < s.len() {
        if s.subrange(0, k) == "version"@ {
            None
        } else {
            Some(ReqSpec::Insert(s.subrange(0, k), s.subrange(k + 1, s.len() as int)))
        }
    } else {
        let t = spec_trim(s);
        if t == "version"@ {
            Some(ReqSpec::Version)
        } else if t == "***CLEAR***"@ {
            Some(ReqSpec::Clear)
        } else {
            Some(ReqSpec::Query(t))
        }
    }
}

/// One parsed datagram.
#[derive(Debug)]
pub enum Request {
    Insert(String, String),
    Query(String),
    Clear,
    Version,
}

impl PartialEq for Request {
    fn eq(&self, other: &Request) -> (r: bool) {
        match (self, other) {
            (Request::Insert(k1, v1), Request::Insert(k2, v2)) => k1.eq(k2) && v1.eq(v2),
            (Request::Query(k1), Request::Query(k2)) => k1.eq(k2),
            (Request::Clear, Request::Clear) => true,
            (Request::Version, Request::Version) => true,
            _ => false,
        }
    }
}

impl vstd::std_specs::cmp::PartialEqSpecImpl for Request {
    open spec fn obeys_eq_spec() -> bool {
        true
    }

    open spec fn eq_spec(&self, other: &Request) -> bool {
        match (self, other) {
            (Request::Insert(k1, v1), Request::Insert(k2, v2)) => k1@ == k2@ && v1@ == v2@,
            (Request::Query(k1), Request::Query(k2)) => k1@ == k2@,
            (Request::Clear, Request::Clear) => true,
            (Request::Version, Request::Version) => true,
            _ => false,
        }
    }
}

/// Dropping `a` leading whitespace characters, up to the first that is not
/// whitespace, is exactly what trimming the start does.
proof fn lemma_trim_start_skip(s: Seq<char>, a: int)
    requires
        0 <= a <= s.len(),
        forall|j: int| 0 <= j < a ==> is_ws(#[trigger] s[j]),
        a < s.len() ==> !is_ws(s[a]),
    ensures
        spec_trim_start(s) == s.skip(a),
    decreases a,
{
    if a == 0 {
        assert(s.skip(0) =~= s);
    } else {
        lemma_trim_start_skip(s.drop_first(), a - 1);
        assert(s.drop_first().skip(a - 1) =~= s.skip(a));
    }
}

/// Keeping the first `b` characters, down to the last that is not
/// whitespace, is exactly what trimming the end does.
proof fn lemma_trim_end_take(s: Seq<char>, b: int)
    requires
        0 <= b <= s.len(),
        forall|j: int| b <= j < s.len() ==> is_ws(#[trigger] s[j]),
        b > 0 ==> !is_ws(s[b - 1]),
    ensures
        spec_trim_end(s) == s.take(b),
    decreases s.len() - b,
{
    if b == s.len() {
        assert(s.take(b) =~= s);
    } else {
        lemma_trim_end_take(s.drop_last(), b);
        assert(s.drop_last().take(b) =~= s.take(b));
    }
}

/// The first `=` is where no earlier character is `=` and that one is.
proof fn lemma_first_eq_at(s: Seq<char>, k: int)
    requires
        0 <= k <= s.len(),
        forall|j: int| 0 <= j < k ==> #[trigger] s[j] != '=',
        k < s.len() ==> s[k] == '=',
    ensures
        first_eq(s) == k,
    decreases k,
{
    if k == 0 {
        if s.len() > 0 {
            assert(s.first() == '=');
        }
    } else {
        lemma_first_eq_at(s.drop_first(), k - 1);
    }
}

/// Reads a datagram's text as a request, or nothing when it writes to the
/// reserved key `version`.
pub fn parse_request(input: &String) -> (r: Option<Request>)
    ensures
        (match (r, spec_parse(input@)) {
            (None, None) => true,
            (Some(Request::Insert(k, v)), Some(ReqSpec::Insert(ks, vs))) => k@ == ks && v@ == vs,
            (Some(Request::Query(k)), Some(ReqSpec::Query(ks))) => k@ == ks,
            (Some(Request::Clear), Some(ReqSpec::Clear)) => true,
            (Some(Request::Version), Some(ReqSpec::Version)) => true,
            _ => false,
        }),
{
    let s = input.as_str();
    let n = s.unicode_len();
    let mut k: usize = n;
    let mut i: usize = 0;
    while i < n
        invariant
            n == s@.len(),
            s@ == input@,
            0 <= i <= n,
            k == n || (k < i && s@[k as int] == '='),
            forall|j: int| 0 <= j < i && j < k ==> #[trigger] s@[j] != '=',
        decreases n - i,
    {
        if k == n && s.get_char(i) == '=' {
            k = i;
        }
        i = i + 1;
    }
    proof {
        lemma_first_eq_at(input@, k as int);
    }
    if k < n {
        let key = String::from_str(s.substring_char(0, k));
        let value = String::from_str(s.substring_char(k + 1, n));
        let version = String::from_str("version");
        if key == version {
            None
        } else {
            Some(Request::Insert(key, value))
        }
    } else {
        let mut a: usize = 0;
        while a < n && char_whitespace(s.get_char(a))
            invariant
                n == s@.len(),
                s@ == input@,
                0 <= a <= n,
                forall|j: int| 0 <= j < a ==> is_ws(#[trigger] s@[j]),
            decreases n - a,
        {
            a = a + 1;
        }
        let mut b: usize = n;
        while b > a && char_whitespace(s.get_char(b - 1))
            invariant
                n == s@.len(),
                s@ == input@,
                a <= b <= n,
                forall|j: int| b <= j < n ==> is_ws(#[trigger] s@[j]),
                a < n ==> !is_ws(s@[a as int]),
            decreases b,
        {
            b = b - 1;
        }
        proof {
            if a == n {
                lemma_trim_start_skip(input@, a as int);
                assert(input@.skip(a as int) =~= Seq::<char>::empty());
                lemma_trim_end_take(spec_trim_start(input@), 0);
            } else {
                lemma_trim_start_skip(input@, a as int);
                lemma_trim_end_take(input@.skip(a as int), b - a);
            }
            assert(spec_trim(input@) =~= input@.subrange(a as int, b as int));
        }
        let trimmed = String::from_str(s.substring_char(a, b));
        let version = String::from_str("version");
        let clear = String::from_str("***CLEAR***");
        if trimmed == version {
            Some(Request::Version)
        } else if trimmed == clear {
            Some(Request::Clear)
        } else {
            Some(Request::Query(trimmed))
        }
    }
}

/// The value stored under `key`: the first entry carrying it, and with the
/// store well formed the only one.
pub open spec fn spec_get(s: Seq<(String, String)>, key: Seq<char>) -> Option<Seq<char>>
    decreases s.len(),
{
    if s.len() == 0 {
        None
    } else if s.first().0@ == key {
        Some(s.first().1@)
    } else {
        spec_get(s.drop_first(), key)
    }
}

/// Each key appears at most once.
pub open spec fn unique_keys(s: Seq<(String, String)>) -> bool {
    forall|i: int, j: int|
        0 <= i < j < s.len() ==> (#[trigger] s[i]).0@ != (#[trigger] s[j]).0@
}

/// The datagram store, keyed by text.
pub struct KvStore {
    entries: Vec<(String, String)>,
}

impl View for KvStore {
    type V = Seq<(String, String)>;

    closed spec fn view(&self) -> Seq<(String, String)> {
        self.entries@
    }
}

/// Replacing the first entry carrying `key` changes that key's value and no
/// other's.
proof fn lemma_get_after_update(
    s: Seq<(String, String)>,
    t: Seq<(String, String)>,
    i: int,
    key: Seq<char>,
    value: Seq<char>,
)
    requires
        t.len() == s.len(),
        0 <= i < s.len(),
        t[i].0@ == key,
        t[i].1@ == value,
        forall|j: int| 0 <= j < s.len() && j != i ==> #[trigger] t[j] == s[j],
        s[i].0@ == key,
        forall|j: int| 0 <= j < i ==> (#[trigger] s[j]).0@ != key,
    ensures
        spec_get(t, key) == Some(value),
        forall|k: Seq<char>| k != key ==> spec_get(t, k) == spec_get(s, k),
    decreases s.len(),
{
    if i == 0 {
        assert(spec_get(t, key) == Some(t.first().1@));
        assert forall|k: Seq<char>| k != key implies spec_get(t, k) == spec_get(s, k) by {
            assert(t.first().0@ == key);
            assert(s.first().0@ == key);
            assert(t.drop_first() =~= s.drop_first());
            assert(spec_get(t.drop_first(), k) == spec_get(s.drop_first(), k));
        }
    } else {
        lemma_get_after_update(s.drop_first(), t.drop_first(), i - 1, key, value);
        assert(t.first() == s.first());
        assert(s.first().0@ != key);
        assert(spec_get(t, key) == Some(value));
        assert forall|k: Seq<char>| k != key implies spec_get(t, k) == spec_get(s, k) by {
            if s.first().0@ == k {
                assert(spec_get(t, k) == Some(t.first().1@));
                assert(spec_get(s, k) == Some(s.first().1@));
            } else {
                assert(spec_get(t.drop_first(), k) == spec_get(s.drop_first(), k));
            }
        }
    }
}

/// Appending an entry for an absent `key` adds that key and changes no
/// other's value.
proof fn lemma_get_after_push(
    s: Seq<(String, String)>,
    t: Seq<(String, String)>,
    key: Seq<char>,
    value: Seq<char>,
)
    requires
        t.len() == s.len() + 1,
        t[s.len() as int].0@ == key,
        t[s.len() as int].1@ == value,
        forall|j: int| 0 <= j < s.len() ==> #[trigger] t[j] == s[j],
        forall|j: int| 0 <= j < s.len() ==> (#[trigger] s[j]).0@ != key,
    ensures
        spec_get(t, key) == Some(value),
        forall|k: Seq<char>| k != key ==> spec_get(t, k) == spec_get(s, k),
    decreases s.len(),
{
    if s.len() == 0 {
        assert(t.first().0@ == key);
        assert(spec_get(t, key) == Some(t.first().1@));
        assert forall|k: Seq<char>| k != key implies spec_get(t, k) == spec_get(s, k) by {
            let e = Seq::<(String, String)>::empty();
            assert(t.drop_first() =~= e);
            assert(spec_get(e, k) == None::<Seq<char>>);
            assert(spec_get(t, k) == spec_get(t.drop_first(), k));
            assert(spec_get(s, k) == None::<Seq<char>>);
        }
    } else {
        lemma_get_after_push(s.drop_first(), t.drop_first(), key, value);
        assert(t.first() == s.first());
        assert(s.first().0@ != key);
        assert(spec_get(t, key) == Some(value));
        assert forall|k: Seq<char>| k != key implies spec_get(t, k) == spec_get(s, k) by {
            if s.first().0@ == k {
                assert(spec_get(t, k) == Some(t.first().1@));
                assert(spec_get(s, k) == Some(s.first().1@));
            } else {
                assert(spec_get(t.drop_first(), k) == spec_get(s.drop_first(), k));
            }
        }
    }
}

impl KvStore {
    /// Keys are unique.
    pub open spec fn wf(&self) -> bool {
        unique_keys(self@)
    }

    /// An empty store.
    pub fn new() -> (r: KvStore)
        ensures
            r@.len() == 0,
            r.wf(),
    {
        KvStore { entries: Vec::new() }
    }

    /// Stores `value` under `key`, overwriting a previous value.
    pub fn insert(&mut self, key: String, value: String)
        requires
            old(self).wf(),
        ensures
            spec_get(final(self)@, key@) == Some(value@),
            forall|k: Seq<char>| k != key@ ==> spec_get(final(self)@, k) == spec_get(
                old(self)@,
                k,
            ),
            final(self).wf(),
    {
        let ghost key_view = key@;
        let ghost value_view = value@;
        let n = self.entries.len();
        let mut i: usize = 0;
        while i < n
            invariant
                self.entries@ == old(self)@,
                n == self.entries.len(),
                0 <= i <= n,
                unique_keys(self.entries@),
                key_view == key@,
                value_view == value@,
                forall|j: int| 0 <= j < i ==> (#[trigger] self.entries@[j]).0@ != key_view,
            decreases n - i,
        {
            let hit = self.entries[i].0 == key;
            if hit {
                self.entries[i] = (key, value);
                proof {
                    lemma_get_after_update(
                        old(self)@,
                        self.entries@,
                        i as int,
                        key_view,
                        value_view,
                    );
                }
                return ;
            }
            i = i + 1;
        }
        self.entries.push((key, value));
        proof {
            lemma_get_after_push(old(self)@, self.entries@, key_view, value_view);
        }
    }

    /// Forgets every entry.
    pub fn clear(&mut self)
        ensures
            final(self)@.len() == 0,
            final(self).wf(),
    {
        self.entries.clear();
    }

    /// Looks `key` up, handing back the stored value or nothing.
    pub fn get(&self, key: &String) -> (r: Option<&String>)
        ensures
            (match (r, spec_get(self@, key@)) {
                (Some(v), Some(vs)) => v@ == vs,
                (None, None) => true,
                _ => false,
            }),
    {
        let n = self.entries.len();
        let mut i: usize = 0;
        proof {
            assert(self.entries@.skip(0) =~= self.entries@);
        }
        while i < n
            invariant
                n == self.entries.len(),
                0 <= i <= n,
                spec_get(self.entries@.skip(i as int), key@) == spec_get(self.entries@, key@),
                forall|j: int| 0 <= j < i ==> (#[trigger] self.entries@[j]).0@ != key@,
            decreases n - i,
        {
            proof {
                let rest = self.entries@.skip(i as int);
                assert(rest.first() == self.entries@[i as int]);
                assert(rest.drop_first() =~= self.entries@.skip(i as int + 1));
            }
            if self.entries[i].0 == *key {
                return Some(&self.entries[i].1);
            }
            i = i + 1;
        }
        proof {
            assert(self.entries@.skip(n as int) =~= Seq::<(String, String)>::empty());
        }
        None
    }
}

/// Answers a query for `key`: the key, `=`, and the stored value — nothing
/// after the `=` when the key is absent.
pub fn query(db: &KvStore, key: &String) -> (r: String)
    ensures
        r@ == key@ + "="@ + (match spec_get(db@, key@) {
            Some(v) => v,
            None => Seq::<char>::empty(),
        }),
{
    let mut r = key.clone();
    r.append("=");
    match db.get(key) {
        Some(value) => {
            r.append(value.as_str());
        },
        None => {
            proof {
                assert(key@ + "="@ + Seq::<char>::empty() =~= key@ + "="@);
            }
        },
    }
    r
}

/// Applies one datagram to the store: an insertion or a clear answers
/// nothing, a query or a version request answers with one datagram, and a
/// write to the reserved key `version` is ignored.
pub fn handle_request(db: &mut KvStore, input: &String) -> (r: Option<String>)
    requires
        old(db).wf(),
    ensures
        final(db).wf(),
        (match spec_parse(input@) {
            None => r is None && final(db)@ == old(db)@,
            Some(ReqSpec::Version) => (match r {
                Some(resp) => resp@ == "version=SneakoDB-1.0"@ && final(db)@ == old(db)@,
                None => false,
            }),
            Some(ReqSpec::Query(k)) => (match r {
                Some(resp) => final(db)@ == old(db)@ && resp@ == k + "="@ + (match spec_get(
                    old(db)@,
                    k,
                ) {
                    Some(v) => v,
                    None => Seq::<char>::empty(),
                }),
                None => false,
            }),
            Some(ReqSpec::Insert(k, v)) => r is None && spec_get(final(db)@, k) == Some(v)
                && forall|k2: Seq<char>| k2 != k ==> spec_get(final(db)@, k2) == spec_get(
                old(db)@,
                k2,
            ),
            Some(ReqSpec::Clear) => r is None && final(db)@.len() == 0,
        }),
{
    match parse_request(input) {
        Some(Request::Version) => Some(String::from_str("version=SneakoDB-1.0")),
        Some(Request::Query(key)) => Some(query(db, &key)),
        Some(Request::Insert(key, value)) => {
            db.insert(key, value);
            None
        },
        Some(Request::Clear) => {
            db.clear();
            None
        },
        None => None,
    }
}

} // verus!
