//! What the standard conversions give that the constructors of the frame types
//! pass their argument through.

use vstd::prelude::*;
use vstd::utf8::encode_utf8;

verus! {

/// `From<T> for T`: the value itself.
pub assume_specification<Value>[ <Value as From<Value>>::from ](value: Value) -> (r: Value)
    ensures
        r == value,
;

/// `<String as From<&str>>::from`: a string with the same text.
pub assume_specification<'a>[ <String as From<&'a str>>::from ](s: &str) -> (r: String)
    ensures
        r@ == s@,
;

/// `<Vec<u8> as From<String>>::from`: the UTF-8 bytes of the text.
pub assume_specification[ <Vec<u8> as From<String>>::from ](s: String) -> (r: Vec<u8>)
    ensures
        r@ == encode_utf8(s@),
;

/// `<Vec<u8> as From<&str>>::from`: the UTF-8 bytes of the text.
pub assume_specification<'a>[ <Vec<u8> as From<&'a str>>::from ](s: &str) -> (r: Vec<u8>)
    ensures
        r@ == encode_utf8(s@),
;

/// `From<&[T; N]> for Vec<T>`: as many items as the array has, each a clone of the
/// item at its place.
pub assume_specification<'a, Item: Clone, const LEN: usize>[ <Vec<Item> as From<
    &'a [Item; LEN],
>>::from ](array: &[Item; LEN]) -> (r: Vec<Item>)
    ensures
        r@.len() == LEN,
        forall|i: int| 0 <= i < LEN ==> cloned::<Item>(array@[i], #[trigger] r@[i]),
;

} // verus!
