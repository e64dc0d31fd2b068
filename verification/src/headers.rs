//! A model of an HTTP header map: an ordered list of name/value pairs with
//! case-insensitive name lookup. Names are restricted to RFC 7230 token
//! characters and values to bytes that cannot break head framing, so a
//! well-formed map always encodes unambiguously.

use vstd::prelude::*;

use crate::ascii::{eq_ignore_ascii_case, eq_ignore_case};

verus! {

/// Whether `b` is an RFC 7230 token character, legal in a header name.
pub open spec fn is_tchar(b: u8) -> bool {
    (48u8 <= b <= 57u8)  // 0-9
    || (65u8 <= b <= 90u8)  // A-Z
    || (97u8 <= b <= 122u8)  // a-z
    || b == 33u8 || (35u8 <= b <= 39u8)  // ! # $ % & '
    || b == 42u8 || b == 43u8 || b == 45u8 || b == 46u8  // * + - .
    || b == 94u8 || b == 95u8 || b == 96u8 || b == 124u8 || b == 126u8  // ^ _ ` | ~

}

/// A legal header name: a nonempty token.
pub open spec fn valid_header_name(s: Seq<u8>) -> bool {
    s.len() >= 1 && forall|i: int| 0 <= i < s.len() ==> is_tchar(#[trigger] s[i])
}

/// A header value byte that survives the wire round trip: horizontal tab or
/// visible ASCII. Control bytes (in particular CR and LF) are excluded, so a
/// valid value can never terminate a header line early.
pub open spec fn is_value_byte(b: u8) -> bool {
    b == 9u8 || (32u8 <= b <= 126u8)
}

/// A legal header value.
pub open spec fn valid_header_value(s: Seq<u8>) -> bool {
    forall|i: int| 0 <= i < s.len() ==> is_value_byte(#[trigger] s[i])
}

/// Checks `valid_header_name` on a byte slice.
pub fn check_header_name(s: &[u8]) -> (r: bool)
    ensures
        r == valid_header_name(s@),
{
    if s.len() == 0 {
        return false;
    }
    let mut i: usize = 0;
    while i < s.len()
        invariant
            0 <= i <= s@.len(),
            forall|j: int| 0 <= j < i ==> is_tchar(#[trigger] s@[j]),
        decreases s@.len() - i,
    {
        let b = s[i];
        let ok = (48u8 <= b && b <= 57u8) || (65u8 <= b && b <= 90u8) || (97u8 <= b && b <= 122u8)
            || b == 33u8 || (35u8 <= b && b <= 39u8) || b == 42u8 || b == 43u8 || b == 45u8 || b
            == 46u8 || b == 94u8 || b == 95u8 || b == 96u8 || b == 124u8 || b == 126u8;
        if !ok {
            return false;
        }
        i += 1;
    }
    true
}

/// Checks `valid_header_value` on a byte slice.
pub fn check_header_value(s: &[u8]) -> (r: bool)
    ensures
        r == valid_header_value(s@),
{
    let mut i: usize = 0;
    while i < s.len()
        invariant
            0 <= i <= s@.len(),
            forall|j: int| 0 <= j < i ==> is_value_byte(#[trigger] s@[j]),
        decreases s@.len() - i,
    {
        let b = s[i];
        if !(b == 9u8 || (32u8 <= b && b <= 126u8)) {
            return false;
        }
        i += 1;
    }
    true
}

/// An ordered list of header name/value pairs.
#[derive(Clone, Debug)]
pub struct HeaderMap {
    entries: Vec<(Vec<u8>, Vec<u8>)>,
}

impl View for HeaderMap {
    type V = Seq<(Seq<u8>, Seq<u8>)>;

    closed spec fn view(&self) -> Seq<(Seq<u8>, Seq<u8>)> {
        self.entries@.map_values(|e: (Vec<u8>, Vec<u8>)| (e.0@, e.1@))
    }
}

/// Every entry of `s` has a legal name and value.
pub open spec fn wf_header_seq(s: Seq<(Seq<u8>, Seq<u8>)>) -> bool {
    forall|i: int|
        0 <= i < s.len() ==> valid_header_name(#[trigger] s[i].0) && valid_header_value(s[i].1)
}

/// The first value in `s` whose name equals `name` up to ASCII case.
pub open spec fn spec_get(s: Seq<(Seq<u8>, Seq<u8>)>, name: Seq<u8>) -> Option<Seq<u8>>
    decreases s.len(),
{
    if s.len() == 0 {
        None
    } else if eq_ignore_case(s[0].0, name) {
        Some(s[0].1)
    } else {
        spec_get(s.drop_first(), name)
    }
}

/// Whether some entry of `s` has the name `name`, up to ASCII case.
pub open spec fn spec_contains(s: Seq<(Seq<u8>, Seq<u8>)>, name: Seq<u8>) -> bool {
    exists|i: int| 0 <= i < s.len() && eq_ignore_case(#[trigger] s[i].0, name)
}

proof fn lemma_spec_get_none(s: Seq<(Seq<u8>, Seq<u8>)>, name: Seq<u8>)
    ensures
        spec_get(s, name) is None <==> !spec_contains(s, name),
    decreases s.len(),
{
    if s.len() > 0 {
        lemma_spec_get_none(s.drop_first(), name);
        if eq_ignore_case(s[0].0, name) {
            assert(spec_contains(s, name));
        } else {
            assert(forall|i: int|
                1 <= i < s.len() ==> s[i] == #[trigger] s.drop_first()[i - 1]);
            assert(spec_contains(s, name) ==> spec_contains(s.drop_first(), name)) by {
                if spec_contains(s, name) {
                    let i = choose|i: int|
                        0 <= i < s.len() && eq_ignore_case(#[trigger] s[i].0, name);
                    assert(i != 0);
                    assert(eq_ignore_case(s.drop_first()[i - 1].0, name));
                }
            }
            assert(spec_contains(s.drop_first(), name) ==> spec_contains(s, name)) by {
                if spec_contains(s.drop_first(), name) {
                    let i = choose|i: int|
                        0 <= i < s.drop_first().len() && eq_ignore_case(
                            #[trigger] s.drop_first()[i].0,
                            name,
                        );
                    assert(eq_ignore_case(s[i + 1].0, name));
                }
            }
        }
    }
}

/// Looking a name up after appending one entry: an existing match still
/// wins; otherwise the new entry answers exactly when its name matches.
pub proof fn lemma_spec_get_push(s: Seq<(Seq<u8>, Seq<u8>)>, e: (Seq<u8>, Seq<u8>), name: Seq<u8>)
    ensures
        spec_get(s.push(e), name) == (if spec_get(s, name) is Some {
            spec_get(s, name)
        } else if eq_ignore_case(e.0, name) {
            Some(e.1)
        } else {
            None::<Seq<u8>>
        }),
    decreases s.len(),
{
    if s.len() == 0 {
        assert(s.push(e)[0] == e);
        assert(s.push(e).drop_first() =~= Seq::<(Seq<u8>, Seq<u8>)>::empty());
        assert(spec_get(Seq::<(Seq<u8>, Seq<u8>)>::empty(), name) is None);
        assert(spec_get(s, name) is None);
    } else {
        lemma_spec_get_push(s.drop_first(), e, name);
        assert(s.push(e)[0] == s[0]);
        assert(s.push(e).drop_first() =~= s.drop_first().push(e));
        if eq_ignore_case(s[0].0, name) {
            assert(spec_get(s.push(e), name) == Some(s[0].1));
            assert(spec_get(s, name) == Some(s[0].1));
        } else {
            assert(spec_get(s.push(e), name) == spec_get(s.drop_first().push(e), name));
            assert(spec_get(s, name) == spec_get(s.drop_first(), name));
        }
    }
}

/// A name is found exactly when some entry matches it.
pub proof fn lemma_get_contains(s: Seq<(Seq<u8>, Seq<u8>)>, name: Seq<u8>)
    ensures
        spec_get(s, name) is None <==> !spec_contains(s, name),
{
    lemma_spec_get_none(s, name);
}

impl HeaderMap {
    /// The empty header map.
    pub fn new() -> (r: HeaderMap)
        ensures
            r@ =~= Seq::<(Seq<u8>, Seq<u8>)>::empty(),
    {
        HeaderMap { entries: Vec::new() }
    }

    /// Every entry has a legal name and value.
    pub open spec fn wf(&self) -> bool {
        wf_header_seq(self@)
    }

    pub fn len(&self) -> (r: usize)
        ensures
            r == self@.len(),
    {
        self.entries.len()
    }

    /// The name of the entry at `i`.
    pub fn name_at(&self, i: usize) -> (r: &Vec<u8>)
        requires
            i < self@.len(),
        ensures
            r@ == self@[i as int].0,
    {
        &self.entries[i].0
    }

    /// The value of the entry at `i`.
    pub fn value_at(&self, i: usize) -> (r: &Vec<u8>)
        requires
            i < self@.len(),
        ensures
            r@ == self@[i as int].1,
    {
        &self.entries[i].1
    }

    /// The first value whose name matches `name` up to ASCII case.
    pub fn get(&self, name: &[u8]) -> (r: Option<&Vec<u8>>)
        ensures
            match r {
                Some(v) => spec_get(self@, name@) == Some(v@),
                None => spec_get(self@, name@) is None,
            },
    {
        let n = self.entries.len();
        proof {
            assert(self@.skip(0) =~= self@);
        }
        let mut i: usize = 0;
        while i < n
            invariant
                0 <= i <= n,
                n == self@.len(),
                spec_get(self@, name@) == spec_get(self@.skip(i as int), name@),
            decreases n - i,
        {
            proof {
                assert(self@.skip(i as int)[0] == self@[i as int]);
                assert(self@.skip(i as int).drop_first() =~= self@.skip(i as int + 1));
            }
            if eq_ignore_ascii_case(self.entries[i].0.as_slice(), name) {
                return Some(&self.entries[i].1);
            }
            i += 1;
        }
        proof {
            assert(self@.skip(n as int) =~= Seq::<(Seq<u8>, Seq<u8>)>::empty());
        }
        None
    }

    /// Whether some entry's name matches `name` up to ASCII case.
    pub fn contains(&self, name: &[u8]) -> (r: bool)
        ensures
            r == spec_contains(self@, name@),
    {
        proof {
            lemma_spec_get_none(self@, name@);
        }
        match self.get(name) {
            Some(_) => true,
            None => false,
        }
    }

    /// An entry-for-entry copy of the map.
    pub fn copied(&self) -> (r: HeaderMap)
        ensures
            r@ == self@,
    {
        let n = self.entries.len();
        let mut out: Vec<(Vec<u8>, Vec<u8>)> = Vec::new();
        let mut i: usize = 0;
        while i < n
            invariant
                0 <= i <= n,
                n == self@.len(),
                self.entries@.len() == n,
                forall|j: int|
                    0 <= j < n ==> (#[trigger] self.entries@[j].0@, self.entries@[j].1@)
                        == self@[j],
                out@.map_values(|e: (Vec<u8>, Vec<u8>)| (e.0@, e.1@)) =~= self@.take(i as int),
            decreases n - i,
        {
            let name = vstd::slice::slice_to_vec(self.entries[i].0.as_slice());
            let value = vstd::slice::slice_to_vec(self.entries[i].1.as_slice());
            let ghost pre = out@;
            out.push((name, value));
            proof {
                assert(out@.map_values(|e: (Vec<u8>, Vec<u8>)| (e.0@, e.1@)) =~= pre.map_values(
                    |e: (Vec<u8>, Vec<u8>)| (e.0@, e.1@),
                ).push(self@[i as int]));
                assert(self@.take(i as int + 1) =~= self@.take(i as int).push(self@[i as int]));
            }
            i += 1;
        }
        proof {
            assert(self@.take(n as int) =~= self@);
        }
        let r = HeaderMap { entries: out };
        proof {
            assert(r@ =~= self@);
        }
        r
    }

    /// Inserts an entry at the front, keeping every existing one.
    pub fn prepend(&mut self, name: Vec<u8>, value: Vec<u8>)
        requires
            valid_header_name(name@),
            valid_header_value(value@),
        ensures
            final(self)@ =~= seq![(name@, value@)] + old(self)@,
            old(self).wf() ==> final(self).wf(),
    {
        let ghost pre = self@;
        self.entries.insert(0, (name, value));
        proof {
            assert(self@ =~= seq![(name@, value@)] + pre);
            if wf_header_seq(pre) {
                assert(forall|i: int|
                    1 <= i < self@.len() ==> self@[i] == #[trigger] pre[i - 1]);
            }
        }
    }

    /// Appends an entry at the end, keeping every existing one.
    pub fn append(&mut self, name: Vec<u8>, value: Vec<u8>)
        requires
            valid_header_name(name@),
            valid_header_value(value@),
        ensures
            final(self)@ =~= old(self)@.push((name@, value@)),
            old(self).wf() ==> final(self).wf(),
    {
        let ghost pre = self@;
        self.entries.push((name, value));
        proof {
            assert(self@ =~= pre.push((name@, value@)));
            if wf_header_seq(pre) {
                assert(forall|i: int|
                    0 <= i < pre.len() ==> self@[i] == #[trigger] pre[i]);
            }
        }
    }

}

} // verus!
