//! A character-wise XOR obfuscation transform.
//!
//! The key's code points are XOR-folded into a single mask, and that mask is
//! applied to every code point of the message. Applying the transform twice
//! with the same key recovers the original message, as long as every
//! intermediate code point is a valid Unicode scalar value. This is a toy
//! obfuscation utility, not a cryptographic primitive.

use vstd::prelude::*;

verus! {

use vstd::utf8::char_is_scalar;
use vstd::utf8::char_u32_cast;

/// True when `v` is a valid Unicode scalar value: at most 0x10FFFF and not a
/// UTF-16 surrogate code point.
pub open spec fn is_scalar_value(v: u32) -> bool {
    v <= 0x10FFFF && !(0xD800 <= v && v <= 0xDFFF)
}

/// The mask a key produces: the XOR of all of its code points, in order,
/// starting from 0. The empty key produces 0, the XOR identity.
pub open spec fn fold_of(key: Seq<char>) -> u32
    decreases key.len(),
{
    if key.len() == 0 {
        0u32
    } else {
        fold_of(key.drop_last()) ^ (key.last() as u32)
    }
}

/// The code point one message character is mapped to under `mask`.
pub open spec fn masked(c: char, mask: u32) -> u32 {
    (c as u32) ^ mask
}

/// True when every character of `msg` maps to a valid Unicode scalar value
/// under `mask`; only then does the transform produce a string.
pub open spec fn all_positions_valid(msg: Seq<char>, mask: u32) -> bool {
    forall|i: int| 0 <= i < msg.len() ==> is_scalar_value(#[trigger] masked(msg[i], mask))
}

/// The transformed message: each character's code point XORed with `mask`,
/// read back as a character.
pub open spec fn transformed(msg: Seq<char>, mask: u32) -> Seq<char> {
    msg.map(|i: int, c: char| (masked(c, mask)) as char)
}

/// The transform's one failure: an XOR result that is not a valid Unicode
/// scalar value. The call aborts on the first offending character and
/// returns no partial output.
#[derive(Clone, Copy, Debug, PartialEq, Eq, Structural)]
pub enum TransformError {
    InvalidScalarValue,
}

/// Relies on `char::from_u32`, whose documentation promises `Some` exactly
/// for valid Unicode scalar values (everything except surrogates and values
/// above `char::MAX`), holding the character with that code point.
pub assume_specification[ char::from_u32 ](v: u32) -> (r: Option<char>)
    ensures
        r == (if is_scalar_value(v) {
            Some(v as char)
        } else {
            None::<char>
        }),
;

/// Relies on `String::push`, whose documentation promises that it appends
/// the given character to the end of the string.
pub assume_specification[ String::push ](s: &mut String, ch: char)
    ensures
        final(s)@ == old(s)@.push(ch),
;

/// Computes the XOR fold of every code point of `key`, left to right,
/// processing every key character exactly once.
pub fn fold_key(key: &str) -> (mask: u32)
    ensures
        mask == fold_of(key@),
{
    let n: usize = key.unicode_len();
    let mut mask: u32 = 0;
    let mut i: usize = 0;
    while i < n
        invariant
            n == key@.len(),
            i <= n,
            mask == fold_of(key@.take(i as int)),
        decreases n - i,
    {
        let c = key.get_char(i);
        mask = mask ^ (c as u32);
        proof {
            assert(key@.take(i as int + 1).drop_last() =~= key@.take(i as int));
        }
        i = i + 1;
    }
    proof {
        assert(key@.take(n as int) =~= key@);
    }
    mask
}

/// Applies the mask derived from `key` to every character of `message`, in
/// order, and collects the results.
///
/// Succeeds exactly when every masked code point is a valid Unicode scalar
/// value; otherwise it aborts on the first offending character and returns
/// no partial output.
pub fn try_transform(key: &str, message: &str) -> (r: Result<String, TransformError>)
    ensures
        r is Ok <==> all_positions_valid(message@, fold_of(key@)),
        r is Ok ==> r->Ok_0@ == transformed(message@, fold_of(key@)),
        r is Err ==> r->Err_0 == TransformError::InvalidScalarValue,
{
    let mask: u32 = fold_key(key);
    let n: usize = message.unicode_len();
    let mut out = String::new();
    let mut i: usize = 0;
    while i < n
        invariant
            n == message@.len(),
            mask == fold_of(key@),
            i <= n,
            forall|j: int| 0 <= j < i ==> is_scalar_value(#[trigger] masked(message@[j], mask)),
            out@ == transformed(message@.take(i as int), mask),
        decreases n - i,
    {
        let c = message.get_char(i);
        match char::from_u32((c as u32) ^ mask) {
            Some(t) => {
                out.push(t);
                proof {
                    assert(transformed(message@.take(i as int + 1), mask) =~= transformed(
                        message@.take(i as int),
                        mask,
                    ).push(t));
                }
            },
            None => {
                proof {
                    assert(!is_scalar_value(masked(message@[i as int], mask)));
                }
                return Err(TransformError::InvalidScalarValue);
            },
        }
        i = i + 1;
    }
    proof {
        assert(message@.take(n as int) =~= message@);
    }
    Ok(out)
}

/// The transform under its host-facing name: XOR-folds `key` into a mask
/// and maps that mask over every character of `message`.
///
/// The caller must ensure that every masked code point stays a valid
/// Unicode scalar value; `try_transform` reports that failure as a value
/// instead of ruling it out.
pub fn encrypty(key: String, message: String) -> (r: String)
    requires
        all_positions_valid(message@, fold_of(key@)),
    ensures
        r@ == transformed(message@, fold_of(key@)),
{
    match try_transform(key.as_str(), message.as_str()) {
        Ok(out) => out,
        Err(_) => vstd::pervasive::unreached(),
    }
}

/// One output character per input character: the transform never changes
/// the length, so a non-empty message gives a non-empty output.
pub proof fn lemma_transform_preserves_length(msg: Seq<char>, mask: u32)
    ensures
        transformed(msg, mask).len() == msg.len(),
        msg.len() > 0 ==> transformed(msg, mask).len() > 0,
{
}

/// Determinism: the transform's contract admits exactly one outcome for
/// each key and message, so repeated calls on the same inputs produce
/// identical output, or fail identically.
pub proof fn lemma_transform_deterministic(
    key: Seq<char>,
    msg: Seq<char>,
    r1: Result<Seq<char>, TransformError>,
    r2: Result<Seq<char>, TransformError>,
)
    requires
        r1 is Ok <==> all_positions_valid(msg, fold_of(key)),
        r1 is Ok ==> r1->Ok_0 == transformed(msg, fold_of(key)),
        r1 is Err ==> r1->Err_0 == TransformError::InvalidScalarValue,
        r2 is Ok <==> all_positions_valid(msg, fold_of(key)),
        r2 is Ok ==> r2->Ok_0 == transformed(msg, fold_of(key)),
        r2 is Err ==> r2->Err_0 == TransformError::InvalidScalarValue,
    ensures
        r1 == r2,
{
}

/// Self-inverse round trip: masking twice with the same key recovers the
/// original message, provided both the forward and the backward pass stay
/// within valid Unicode scalar values at every position.
pub proof fn lemma_round_trip(key: Seq<char>, msg: Seq<char>)
    requires
        all_positions_valid(msg, fold_of(key)),
        all_positions_valid(transformed(msg, fold_of(key)), fold_of(key)),
    ensures
        transformed(transformed(msg, fold_of(key)), fold_of(key)) == msg,
{
    let mask: u32 = fold_of(key);
    let t = transformed(msg, mask);
    assert forall|i: int| 0 <= i < msg.len() implies transformed(t, mask)[i] == msg[i] by {
        let a: u32 = msg[i] as u32;
        assert(is_scalar_value(masked(msg[i], mask)));
        let b: u32 = t[i] as u32;
        assert(b == a ^ mask);
        assert((a ^ mask) ^ mask == a) by (bit_vector);
        char_u32_cast(msg[i], a);
    };
    assert(transformed(t, mask) =~= msg);
}

/// Empty-key identity: the empty key folds to the mask 0, and masking with
/// 0 leaves every message unchanged and valid at every position.
pub proof fn lemma_empty_key_identity(msg: Seq<char>)
    ensures
        fold_of(Seq::<char>::empty()) == 0,
        all_positions_valid(msg, 0),
        transformed(msg, 0) == msg,
{
    assert forall|i: int| 0 <= i < msg.len() implies is_scalar_value(
        #[trigger] masked(msg[i], 0),
    ) && transformed(msg, 0)[i] == msg[i] by {
        let a: u32 = msg[i] as u32;
        assert(a ^ 0 == a) by (bit_vector);
        char_is_scalar(msg[i]);
        char_u32_cast(msg[i], a);
    };
    assert(transformed(msg, 0) =~= msg);
}

/// Empty-message identity: every key transforms the empty message to the
/// empty message, and no position can fail.
pub proof fn lemma_empty_message_identity(key: Seq<char>)
    ensures
        all_positions_valid(Seq::<char>::empty(), fold_of(key)),
        transformed(Seq::<char>::empty(), fold_of(key)) == Seq::<char>::empty(),
{
    assert(transformed(Seq::<char>::empty(), fold_of(key)) =~= Seq::<char>::empty());
}

} // verus!
