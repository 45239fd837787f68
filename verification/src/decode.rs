//! Decoding of fixed-width, null-terminated wide-character name buffers.
//!
//! The operating system reports executable and module names as fixed-size
//! arrays of 16-bit units. The text of such a buffer is the decoding of
//! its prefix up to (and excluding) the first null unit, or of the whole
//! buffer when no null unit is present. Decoding is total except for
//! invalid encodings: an unpaired surrogate unit is a `DecodeError`.

use vstd::prelude::*;

use crate::errors::ToolkitError;

verus! {

/// A unit that opens a surrogate pair.
pub open spec fn is_high_surrogate(u: u16) -> bool {
    0xD800 <= u < 0xDC00
}

/// A unit that closes a surrogate pair.
pub open spec fn is_low_surrogate(u: u16) -> bool {
    0xDC00 <= u < 0xE000
}

/// The code point encoded by a surrogate pair.
pub open spec fn combine_surrogates(h: u16, l: u16) -> u32
    recommends
        is_high_surrogate(h),
        is_low_surrogate(l),
{
    (0x10000 + (h - 0xD800) * 0x400 + (l - 0xDC00)) as u32
}

/// Whether a sequence of 16-bit units is well formed: every high
/// surrogate is followed by a low surrogate, and no low surrogate stands
/// on its own.
pub open spec fn is_wide_text(units: Seq<u16>) -> bool
    decreases units.len(),
{
    if units.len() == 0 {
        true
    } else if is_high_surrogate(units[0]) {
        units.len() >= 2 && is_low_surrogate(units[1]) && is_wide_text(units.skip(2))
    } else if is_low_surrogate(units[0]) {
        false
    } else {
        is_wide_text(units.skip(1))
    }
}

/// The characters encoded by a well-formed sequence of 16-bit units.
pub open spec fn wide_chars(units: Seq<u16>) -> Seq<char>
    recommends
        is_wide_text(units),
    decreases units.len(),
{
    if units.len() == 0 {
        Seq::empty()
    } else if is_high_surrogate(units[0]) {
        if units.len() >= 2 && is_low_surrogate(units[1]) {
            seq![combine_surrogates(units[0], units[1]) as char] + wide_chars(units.skip(2))
        } else {
            Seq::empty()
        }
    } else if is_low_surrogate(units[0]) {
        Seq::empty()
    } else {
        seq![(units[0] as u32) as char] + wide_chars(units.skip(1))
    }
}

/// The position of the first null unit, or the length of the sequence
/// when no unit is null.
pub open spec fn first_null(units: Seq<u16>) -> int
    decreases units.len(),
{
    if units.len() == 0 {
        0
    } else if units[0] == 0 {
        0
    } else {
        1 + first_null(units.skip(1))
    }
}

/// The prefix of a buffer up to (and excluding) its first null unit.
pub open spec fn null_prefix(units: Seq<u16>) -> Seq<u16> {
    units.take(first_null(units))
}

/// `first_null` is the first position holding a null unit.
pub proof fn lemma_first_null(units: Seq<u16>)
    ensures
        0 <= first_null(units) <= units.len(),
        first_null(units) < units.len() ==> units[first_null(units)] == 0,
        forall|j: int| 0 <= j < first_null(units) ==> units[j] != 0,
    decreases units.len(),
{
    if units.len() > 0 && units[0] != 0 {
        lemma_first_null(units.skip(1));
        assert forall|j: int| 0 <= j < first_null(units) implies units[j] != 0 by {
            if j > 0 {
                assert(units.skip(1)[j - 1] == units[j]);
            }
        }
        if first_null(units) < units.len() {
            assert(units.skip(1)[first_null(units) - 1] == units[first_null(units)]);
        }
    }
}

/// Finds the position of the first null unit of a buffer, or its length
/// when no unit is null.
pub fn first_null_position(units: &[u16]) -> (i: usize)
    ensures
        i == first_null(units@),
{
    proof {
        lemma_first_null(units@);
    }
    let n = units.len();
    let mut i: usize = 0;
    while i < n
        invariant
            0 <= i <= n == units@.len(),
            forall|j: int| 0 <= j < i ==> units@[j] != 0,
            0 <= first_null(units@) <= units@.len(),
            first_null(units@) < units@.len() ==> units@[first_null(units@)] == 0,
            forall|j: int| 0 <= j < first_null(units@) ==> units@[j] != 0,
        decreases n - i,
    {
        if *vstd::slice::slice_index_get(units, i) == 0 {
            proof {
                if first_null(units@) < i {
                    assert(units@[first_null(units@)] != 0);
                }
                if first_null(units@) > i {
                    assert(units@[i as int] != 0);
                }
            }
            return i;
        }
        i = i + 1;
    }
    proof {
        if first_null(units@) < i {
            assert(units@[first_null(units@)] != 0);
        }
    }
    i
}

/// Copies a buffer of 16-bit units.
pub fn copy_units(units: &[u16]) -> (out: Vec<u16>)
    ensures
        out@ == units@,
{
    let n = units.len();
    let mut out: Vec<u16> = Vec::new();
    let mut i: usize = 0;
    while i < n
        invariant
            0 <= i <= n == units@.len(),
            out@ == units@.take(i as int),
        decreases n - i,
    {
        out.push(*vstd::slice::slice_index_get(units, i));
        assert(out@ =~= units@.take(i + 1));
        i = i + 1;
    }
    assert(out@ =~= units@);
    out
}

/// Relies on char::from_u32 of the standard library: it returns a
/// character exactly for the Unicode scalar values, carrying the code
/// point unchanged.
#[verifier::external_body]
fn char_from_u32(v: u32) -> (r: Option<char>)
    ensures
        r is Some <==> (v < 0xD800 || (0xE000 <= v && v <= 0x10FFFF)),
        r matches Some(c) ==> c as u32 == v,
{
    char::from_u32(v)
}

/// Relies on String::push of the standard library: it appends the one
/// character to the end of the string.
#[verifier::external_body]
fn push_char(s: &mut String, c: char)
    ensures
        final(s)@ == old(s)@.push(c),
{
    s.push(c);
}

/// Decodes a whole sequence of 16-bit units, failing exactly on an
/// unpaired surrogate.
pub fn decode_wide(units: &[u16]) -> (r: Result<String, ToolkitError>)
    ensures
        r is Ok <==> is_wide_text(units@),
        r matches Ok(s) ==> s@ == wide_chars(units@),
        r matches Err(e) ==> e == ToolkitError::DecodeError,
{
    let n = units.len();
    let mut out = String::new();
    let mut i: usize = 0;
    assert(units@.skip(0) =~= units@);
    while i < n
        invariant
            0 <= i <= n == units@.len(),
            is_wide_text(units@) <==> is_wide_text(units@.skip(i as int)),
            wide_chars(units@) == out@ + wide_chars(units@.skip(i as int)),
        decreases n - i,
    {
        let ghost rest = units@.skip(i as int);
        let u = *vstd::slice::slice_index_get(units, i);
        assert(rest[0] == u);
        if u < 0xD800 || u >= 0xE000 {
            assert(rest.skip(1) =~= units@.skip(i + 1));
            match char_from_u32(u as u32) {
                Some(c) => {
                    proof {
                        vstd::utf8::char_u32_cast(c, u as u32);
                        assert(wide_chars(rest) == seq![(u as u32) as char] + wide_chars(
                            rest.skip(1),
                        ));
                        assert(out@.push(c) + wide_chars(units@.skip(i + 1)) =~= out@ + wide_chars(
                            rest,
                        ));
                    }
                    push_char(&mut out, c);
                    i = i + 1;
                },
                None => {
                    // unreachable: every unit outside the surrogate range is a scalar
                    return Err(ToolkitError::DecodeError);
                },
            }
        } else if u < 0xDC00 {
            // high surrogate: a low surrogate must follow
            if i + 1 >= n {
                assert(!is_wide_text(rest));
                return Err(ToolkitError::DecodeError);
            }
            let l = *vstd::slice::slice_index_get(units, i + 1);
            assert(rest[1] == l);
            if !(0xDC00 <= l && l < 0xE000) {
                assert(!is_wide_text(rest));
                return Err(ToolkitError::DecodeError);
            }
            assert(rest.skip(2) =~= units@.skip(i + 2));
            let cp: u32 = 0x10000 + (((u - 0xD800) as u32) * 0x400) + ((l - 0xDC00) as u32);
            assert(cp == combine_surrogates(u, l));
            match char_from_u32(cp) {
                Some(c) => {
                    proof {
                        vstd::utf8::char_u32_cast(c, cp);
                        assert(wide_chars(rest) == seq![combine_surrogates(u, l) as char]
                            + wide_chars(rest.skip(2)));
                        assert(out@.push(c) + wide_chars(units@.skip(i + 2)) =~= out@ + wide_chars(
                            rest,
                        ));
                    }
                    push_char(&mut out, c);
                    i = i + 2;
                },
                None => {
                    // unreachable: a combined surrogate pair is a scalar
                    return Err(ToolkitError::DecodeError);
                },
            }
        } else {
            // low surrogate with no opening high surrogate
            assert(!is_wide_text(rest));
            return Err(ToolkitError::DecodeError);
        }
    }
    assert(units@.skip(i as int) =~= Seq::<u16>::empty());
    assert(out@ + wide_chars(units@.skip(i as int)) =~= out@);
    Ok(out)
}

/// Decodes the name held in a fixed-width wide-character buffer: the
/// decoding of the prefix up to the first null unit, or of the whole
/// buffer when no null unit is present.
pub fn u16_to_string(units: &[u16]) -> (r: Result<String, ToolkitError>)
    ensures
        r is Ok <==> is_wide_text(null_prefix(units@)),
        r matches Ok(s) ==> s@ == wide_chars(null_prefix(units@)),
        r matches Err(e) ==> e == ToolkitError::DecodeError,
{
    let n = first_null_position(units);
    proof {
        lemma_first_null(units@);
    }
    let prefix = vstd::slice::slice_subrange(units, 0, n);
    assert(prefix@ =~= null_prefix(units@));
    decode_wide(prefix)
}

proof fn lemma_wide_chars_no_null(units: Seq<u16>)
    requires
        is_wide_text(units),
        forall|i: int| 0 <= i < units.len() ==> units[i] != 0,
    ensures
        forall|j: int| 0 <= j < wide_chars(units).len() ==> wide_chars(units)[j] != '\0',
    decreases units.len(),
{
    if units.len() == 0 {
    } else if is_high_surrogate(units[0]) {
        let cp = combine_surrogates(units[0], units[1]);
        assert(cp >= 0x10000);
        assert((cp as char) as u32 == cp);
        assert(cp as char != '\0');
        assert(forall|i: int| 0 <= i < units.skip(2).len() ==> units.skip(2)[i] != 0);
        lemma_wide_chars_no_null(units.skip(2));
        assert forall|j: int| 0 <= j < wide_chars(units).len() implies wide_chars(units)[j]
            != '\0' by {
            if j > 0 {
                assert(wide_chars(units)[j] == wide_chars(units.skip(2))[j - 1]);
            }
        }
    } else {
        let x = units[0];
        assert(x != 0);
        assert(((x as u32) as char) as u32 == x as u32);
        assert((x as u32) as char != '\0');
        assert(forall|i: int| 0 <= i < units.skip(1).len() ==> units.skip(1)[i] != 0);
        lemma_wide_chars_no_null(units.skip(1));
        assert forall|j: int| 0 <= j < wide_chars(units).len() implies wide_chars(units)[j]
            != '\0' by {
            if j > 0 {
                assert(wide_chars(units)[j] == wide_chars(units.skip(1))[j - 1]);
            }
        }
    }
}

/// Law: a successfully decoded name is the decoding of the buffer's
/// prefix up to (and excluding) the first null unit, and contains no
/// null character itself.
pub proof fn lemma_decoded_name_no_null(units: Seq<u16>)
    requires
        is_wide_text(null_prefix(units)),
    ensures
        forall|j: int|
            0 <= j < wide_chars(null_prefix(units)).len() ==> wide_chars(null_prefix(units))[j]
                != '\0',
{
    lemma_first_null(units);
    assert(forall|i: int| 0 <= i < null_prefix(units).len() ==> null_prefix(units)[i] != 0);
    lemma_wide_chars_no_null(null_prefix(units));
}

} // verus!
