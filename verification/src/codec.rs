//! The semantics of the two derived procedures: `encode`, a total mapping
//! from variant to wire value, and `decode`, the first-match lookup with the
//! catch-all fallback and the formatted "invalid value" error.

use vstd::prelude::*;

use vstd::string::StrSliceExecFns;

use crate::numfmt::{dec_chars, push_dec_i64, string_from_chars};
use crate::parse::Input;

verus! {

/// The wire value of the variant at position `i`: its resolved discriminant
/// reinterpreted as the chosen representation type.
pub open spec fn wire_value_spec(input: Input, i: int) -> int {
    input.repr.reinterpret(input.variants@[i].resolved as int)
}

/// The position of the first variant, starting at `i`, whose wire value
/// equals `x`.
pub open spec fn first_match_from(input: Input, x: int, i: int) -> Option<int>
    decreases input.variants@.len() - i,
{
    if i < 0 || i >= input.variants@.len() {
        None
    } else if wire_value_spec(input, i) == x {
        Some(i)
    } else {
        first_match_from(input, x, i + 1)
    }
}

/// The position of the first variant, in declaration order, whose wire value
/// equals `x`.
pub open spec fn first_match(input: Input, x: int) -> Option<int> {
    first_match_from(input, x, 0)
}

/// A first match is a match, and nothing before it matches; no match means
/// nothing matches.
pub proof fn lemma_first_match_from(input: Input, x: int, i: int)
    requires
        0 <= i <= input.variants@.len(),
    ensures
        match first_match_from(input, x, i) {
            Some(k) => {
                &&& i <= k < input.variants@.len()
                &&& wire_value_spec(input, k) == x
                &&& forall|j: int| i <= j < k ==> wire_value_spec(input, j) != x
            },
            None => forall|j: int| i <= j < input.variants@.len() ==> wire_value_spec(input, j) != x,
        },
    decreases input.variants@.len() - i,
{
    if i < input.variants@.len() && wire_value_spec(input, i) != x {
        lemma_first_match_from(input, x, i + 1);
    }
}

/// Encode the variant at position `v`: its resolved discriminant
/// reinterpreted as the chosen representation type. This direction cannot
/// fail.
pub fn encode(input: &Input, v: usize) -> (r: i64)
    requires
        v < input.variants@.len(),
    ensures
        r as int == wire_value_spec(*input, v as int),
        input.repr.in_range(r as int),
{
    input.repr.truncate_value(input.variants[v].resolved)
}

/// The one runtime failure: a decoded integer matched no discriminant and no
/// catch-all variant was marked. It carries the offending value and the wire
/// values that would have been accepted, in declaration order.
#[derive(Debug)]
pub struct DecodeError {
    pub value: i64,
    pub expected: Vec<i64>,
}

/// The rendering of `es` as a comma-separated decimal list.
pub open spec fn list_chars(es: Seq<int>) -> Seq<char>
    decreases es.len(),
{
    if es.len() == 0 {
        Seq::empty()
    } else if es.len() == 1 {
        dec_chars(es[0])
    } else {
        list_chars(es.drop_last()) + ", "@ + dec_chars(es.last())
    }
}

/// The decode error message. Its phrasing varies with the number of accepted
/// values, purely for readability: one is "expected {v}", two are
/// "expected {v1} or {v2}", three or more are "expected one of: {v1}, {v2}, …".
pub open spec fn invalid_value_message(value: int, expected: Seq<int>) -> Seq<char>
    recommends
        expected.len() >= 1,
{
    if expected.len() <= 1 {
        "invalid value: "@ + dec_chars(value) + ", expected "@ + dec_chars(expected[0])
    } else if expected.len() == 2 {
        "invalid value: "@ + dec_chars(value) + ", expected "@ + dec_chars(expected[0]) + " or "@
            + dec_chars(expected[1])
    } else {
        "invalid value: "@ + dec_chars(value) + ", expected one of: "@ + list_chars(expected)
    }
}

/// Append the characters of `s` to `out`.
pub fn push_str_chars(out: &mut Vec<char>, s: &str)
    ensures
        final(out)@ == old(out)@ + s@,
{
    let n: usize = s.unicode_len();
    let mut i: usize = 0;
    while i < n
        invariant
            i <= n,
            n == s@.len(),
            out@ == old(out)@ + s@.take(i as int),
        decreases n - i,
    {
        let c = s.get_char(i);
        out.push(c);
        assert(out@ =~= old(out)@ + s@.take(i + 1));
        i = i + 1;
    }
    assert(out@ =~= old(out)@ + s@);
}

impl DecodeError {
    /// Format the error message from the offending value and the accepted
    /// values.
    pub fn message(&self) -> (r: String)
        requires
            self.expected@.len() >= 1,
        ensures
            r@ == invalid_value_message(
                self.value as int,
                self.expected@.map_values(|w: i64| w as int),
            ),
    {
        let ghost es = self.expected@.map_values(|w: i64| w as int);
        let mut out: Vec<char> = Vec::new();
        push_str_chars(&mut out, "invalid value: ");
        push_dec_i64(&mut out, self.value);
        if self.expected.len() == 1 {
            push_str_chars(&mut out, ", expected ");
            push_dec_i64(&mut out, self.expected[0]);
        } else if self.expected.len() == 2 {
            push_str_chars(&mut out, ", expected ");
            push_dec_i64(&mut out, self.expected[0]);
            push_str_chars(&mut out, " or ");
            push_dec_i64(&mut out, self.expected[1]);
        } else {
            push_str_chars(&mut out, ", expected one of: ");
            let mut i: usize = 0;
            while i < self.expected.len()
                invariant
                    i <= self.expected@.len(),
                    self.expected@.len() >= 3,
                    es == self.expected@.map_values(|w: i64| w as int),
                    out@ == "invalid value: "@ + dec_chars(self.value as int)
                        + ", expected one of: "@ + list_chars(es.take(i as int)),
                decreases self.expected@.len() - i,
            {
                if i > 0 {
                    push_str_chars(&mut out, ", ");
                }
                push_dec_i64(&mut out, self.expected[i]);
                proof {
                    let t = es.take(i + 1);
                    assert(t.drop_last() =~= es.take(i as int));
                    assert(t.last() == es[i as int]);
                    if i == 0 {
                        assert(list_chars(t) =~= dec_chars(es[0]));
                    }
                    assert(out@ =~= "invalid value: "@ + dec_chars(self.value as int)
                        + ", expected one of: "@ + list_chars(es.take(i + 1)));
                }
                i = i + 1;
            }
            proof {
                assert(es.take(es.len() as int) =~= es);
            }
        }
        string_from_chars(&out)
    }
}

/// Decode the integer `x` of the chosen representation type: the first
/// variant whose wire value equals `x` wins; an unmatched value decodes to
/// the catch-all variant if one was marked, and fails with the formatted
/// error otherwise.
pub fn decode(input: &Input, x: i64) -> (r: Result<usize, DecodeError>)
    requires
        input.wf(),
        input.repr.in_range(x as int),
    ensures
        match first_match(*input, x as int) {
            Some(k) => r matches Ok(v) && v == k,
            None => match input.default_variant {
                Some(d) => r matches Ok(v) && v == d,
                None => r matches Err(e) && e.value == x && e.expected@.len()
                    == input.variants@.len() && forall|j: int|
                    0 <= j < input.variants@.len() ==> e.expected@[j] as int == wire_value_spec(
                        *input,
                        j,
                    ),
            },
        },
{
    let mut i: usize = 0;
    while i < input.variants.len()
        invariant
            i <= input.variants@.len(),
            forall|j: int| 0 <= j < i ==> wire_value_spec(*input, j) != x as int,
        decreases input.variants@.len() - i,
    {
        let w = input.repr.truncate_value(input.variants[i].resolved);
        if w == x {
            proof {
                lemma_first_match_from(*input, x as int, 0);
                assert(wire_value_spec(*input, i as int) == x as int);
                assert(first_match(*input, x as int) == Some(i as int));
            }
            return Ok(i);
        }
        i = i + 1;
    }
    proof {
        lemma_first_match_from(*input, x as int, 0);
    }
    match input.default_variant {
        Some(d) => Ok(d),
        None => {
            let mut expected: Vec<i64> = Vec::new();
            let mut i: usize = 0;
            while i < input.variants.len()
                invariant
                    i <= input.variants@.len(),
                    expected@.len() == i,
                    forall|j: int| 0 <= j < i ==> expected@[j] as int == wire_value_spec(*input, j),
                decreases input.variants@.len() - i,
            {
                let w = input.repr.truncate_value(input.variants[i].resolved);
                expected.push(w);
                i = i + 1;
            }
            Err(DecodeError { value: x, expected })
        },
    }
}

/// Round trip: decoding the encoding of any variant yields that variant
/// again, provided no two variants share a wire value. Together with the
/// contracts of `encode` and `decode` this says that for a well-formed input
/// whose wire values are pairwise distinct, `decode(encode(v)) == Ok(v)`.
pub proof fn lemma_round_trip(input: Input, v: int)
    requires
        0 <= v < input.variants@.len(),
        forall|i: int, j: int|
            0 <= i < input.variants@.len() && 0 <= j < input.variants@.len() && i != j
                ==> wire_value_spec(input, i) != wire_value_spec(input, j),
    ensures
        first_match(input, wire_value_spec(input, v)) == Some(v),
{
    lemma_first_match_from(input, wire_value_spec(input, v), 0);
}

} // verus!
