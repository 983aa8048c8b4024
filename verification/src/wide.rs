//! Texts in sixteen-bit units.

use vstd::prelude::*;

verus! {

/// The units of one character: one of them, or a pair of surrogates.
pub open spec fn units_of(c: char) -> Seq<u16> {
    let n = c as u32;
    if n < 0x10000 {
        seq![n as u16]
    } else {
        seq![
            (0xd800 + (n - 0x10000) / 0x400) as u16,
            (0xdc00 + (n - 0x10000) % 0x400) as u16,
        ]
    }
}

/// The UTF-16 form of a text.
pub open spec fn utf16(s: Seq<char>) -> Seq<u16>
    decreases s.len(),
{
    if s.len() == 0 {
        Seq::empty()
    } else {
        utf16(s.drop_last()) + units_of(s.last())
    }
}

/// What a nul-terminated wide text of `s` holds: its units, without a zero at
/// the end. There is none if there are other zeros.
pub open spec fn wide_units(s: Seq<char>) -> Option<Seq<u16>> {
    let units = utf16(s);
    let body = if units.len() > 0 && units.last() == 0 {
        units.drop_last()
    } else {
        units
    };
    if body.contains(0) {
        None
    } else {
        Some(body)
    }
}

/// `widestring::U16CString::from_str`: the UTF-16 units of the text without the
/// terminator. It fails if a zero stands anywhere but at the end.
#[verifier::external_body]
pub(crate) fn wide(s: &str) -> (r: Option<Vec<u16>>)
    ensures
        match r {
            Some(u) => wide_units(s@) == Some(u@),
            None => wide_units(s@) is None,
        },
{
    match widestring::U16CString::from_str(s) {
        Ok(w) => Some(w.as_slice().to_vec()),
        Err(_) => None,
    }
}

/// `a` does not come behind `b` in the order of their units.
pub open spec fn units_le(a: Seq<u16>, b: Seq<u16>) -> bool
    decreases a.len(),
{
    if a.len() == 0 {
        true
    } else if b.len() == 0 {
        false
    } else if a[0] == b[0] {
        units_le(a.drop_first(), b.drop_first())
    } else {
        a[0] < b[0]
    }
}

/// Whether `a` does not come behind `b` in the order of their units.
pub fn units_ordered(a: &Vec<u16>, b: &Vec<u16>) -> (r: bool)
    ensures
        r == units_le(a@, b@),
{
    let mut i: usize = 0;
    assert(a@.skip(0) =~= a@);
    assert(b@.skip(0) =~= b@);
    while i < a.len() && i < b.len()
        invariant
            i <= a@.len(),
            i <= b@.len(),
            units_le(a@, b@) == units_le(a@.skip(i as int), b@.skip(i as int)),
        decreases a@.len() - i,
    {
        if a[i] != b[i] {
            return a[i] < b[i];
        }
        assert(a@.skip(i as int).drop_first() =~= a@.skip(i as int + 1));
        assert(b@.skip(i as int).drop_first() =~= b@.skip(i as int + 1));
        i = i + 1;
    }
    i == a.len()
}

/// A text whose characters are all of one unit has just as many units, each of
/// them the number of its character; no other units come up.
pub proof fn law_plain_units(s: Seq<char>)
    requires
        forall|i: int| 0 <= i < s.len() ==> 0 < (#[trigger] s[i] as int) < 0x10000,
    ensures
        wide_units(s) matches Some(u) && u.len() == s.len() && forall|i: int|
            0 <= i < s.len() ==> #[trigger] u[i] as int == s[i] as int,
{
    lemma_plain_units(s);
    let u = utf16(s);
    if u.contains(0) {
        let i = choose|i: int| 0 <= i < u.len() && u[i] == 0;
        assert(s[i] as int > 0);
    }
    if u.len() > 0 {
        assert(s[s.len() - 1] as int > 0);
    }
}

/// The units of such a text.
proof fn lemma_plain_units(s: Seq<char>)
    requires
        forall|i: int| 0 <= i < s.len() ==> 0 < (#[trigger] s[i] as int) < 0x10000,
    ensures
        utf16(s).len() == s.len(),
        forall|i: int| 0 <= i < s.len() ==> #[trigger] utf16(s)[i] as int == s[i] as int,
    decreases s.len(),
{
    if s.len() > 0 {
        let head = s.drop_last();
        assert forall|i: int| 0 <= i < head.len() implies 0 < (#[trigger] head[i] as int)
            < 0x10000 by {
            assert(head[i] == s[i]);
        }
        lemma_plain_units(head);
        assert(0 < s[s.len() - 1] as int && (s[s.len() - 1] as int) < 0x10000);
        assert forall|i: int| 0 <= i < s.len() implies #[trigger] utf16(s)[i] as int
            == s[i] as int by {
            if i < head.len() {
                assert(utf16(s)[i] == utf16(head)[i]);
                assert(head[i] == s[i]);
            }
        }
    }
}

/// The order of units is an order: of two texts one does not come behind the
/// other, and both do not only where they are the same. A text does not come
/// behind one that it begins.
pub proof fn law_units_order(a: Seq<u16>, b: Seq<u16>)
    ensures
        units_le(a, b) || units_le(b, a),
        units_le(a, b) && units_le(b, a) ==> a == b,
        units_le(a, a + b),
    decreases a.len(),
{
    if a.len() > 0 && b.len() > 0 && a[0] == b[0] {
        law_units_order(a.drop_first(), b.drop_first());
        if units_le(a, b) && units_le(b, a) {
            assert(seq![a[0]] + a.drop_first() =~= a);
            assert(seq![b[0]] + b.drop_first() =~= b);
        }
    }
    if a.len() > 0 {
        law_units_order(a.drop_first(), b);
        assert((a + b).drop_first() =~= a.drop_first() + b);
    } else if units_le(a, b) && units_le(b, a) {
        assert(a =~= b);
    }
}

} // verus!
