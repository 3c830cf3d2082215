//! The wire codec: the envelope grammar of the protocol.
//!
//! A text frame is decodable when it is a single JSON object, possibly
//! surrounded by whitespace. A decodable frame whose top-level "id" member is
//! an integer and which carries a "result" member is a reply; one whose "id"
//! is an integer and whose "error" member is an object holding an integer
//! "code" and a string "message" is an error reply; every other decodable
//! frame is a push notification. Anything else is a decode failure.
//!
//! The grammar is defined by the spec functions below; [`decode`] is proved
//! to return exactly what [`spec_decode`] says. Member lookup takes the first
//! member with the wanted key; integer tokens are capped at 18 digits, so
//! every recognized identifier fits a 64-bit integer.

use vstd::prelude::*;
use crate::messages::{InboundMessage, MsgView};

verus! {

/// Bytes that count as insignificant whitespace between tokens.
pub open spec fn is_ws(b: u8) -> bool {
    b == 32 || b == 9 || b == 10 || b == 13
}

/// ASCII decimal digit.
pub open spec fn is_digit(b: u8) -> bool {
    48 <= b && b <= 57
}

/// ASCII hexadecimal digit, either case.
pub open spec fn is_hex_digit(b: u8) -> bool {
    is_digit(b) || (97 <= b && b <= 102) || (65 <= b && b <= 70)
}

/// The single characters that may follow a backslash in a string.
pub open spec fn is_simple_escape(b: u8) -> bool {
    b == 34 || b == 92 || b == 47 || b == 98 || b == 102 || b == 110 || b == 114 || b == 116
}

/// Index of the first byte at or after `i` that is not whitespace.
pub open spec fn skip_ws(s: Seq<u8>, i: int) -> int
    decreases s.len() - i,
{
    if 0 <= i && i < s.len() && is_ws(s[i]) {
        skip_ws(s, i + 1)
    } else {
        i
    }
}

/// Index just after the closing quote of a string whose opening quote stands
/// at `i - 1`; `None` if the string never closes or holds a raw control byte
/// or a broken escape.
pub open spec fn string_end(s: Seq<u8>, i: int) -> Option<int>
    decreases s.len() - i,
{
    if !(0 <= i && i < s.len()) {
        None
    } else if s[i] == 34 {
        Some(i + 1)
    } else if s[i] == 92 {
        if i + 1 < s.len() && is_simple_escape(s[i + 1]) {
            string_end(s, i + 2)
        } else if i + 5 < s.len() && s[i + 1] == 117 && is_hex_digit(s[i + 2])
            && is_hex_digit(s[i + 3]) && is_hex_digit(s[i + 4]) && is_hex_digit(s[i + 5]) {
            string_end(s, i + 6)
        } else {
            None
        }
    } else if s[i] >= 32 {
        string_end(s, i + 1)
    } else {
        None
    }
}

/// Index of the first byte at or after `i` that is not a decimal digit.
pub open spec fn digits_end(s: Seq<u8>, i: int) -> int
    decreases s.len() - i,
{
    if 0 <= i && i < s.len() && is_digit(s[i]) {
        digits_end(s, i + 1)
    } else {
        i
    }
}

/// End of an optional fraction part starting at `k`.
pub open spec fn frac_end(s: Seq<u8>, k: int) -> Option<int> {
    if 0 <= k && k < s.len() && s[k] == 46 {
        let m = digits_end(s, k + 1);
        if m >= k + 2 {
            Some(m)
        } else {
            None
        }
    } else {
        Some(k)
    }
}

/// End of an optional exponent part starting at `k`.
pub open spec fn exp_end(s: Seq<u8>, k: int) -> Option<int> {
    if 0 <= k && k < s.len() && (s[k] == 101 || s[k] == 69) {
        let d = if k + 1 < s.len() && (s[k + 1] == 43 || s[k + 1] == 45) {
            k + 2
        } else {
            k + 1
        };
        let m = digits_end(s, d);
        if m >= d + 1 {
            Some(m)
        } else {
            None
        }
    } else {
        Some(k)
    }
}

/// End of a number token starting at `i`.
pub open spec fn number_end(s: Seq<u8>, i: int) -> Option<int> {
    let d = if 0 <= i && i < s.len() && s[i] == 45 {
        i + 1
    } else {
        i
    };
    let k = digits_end(s, d);
    if k <= d {
        None
    } else {
        match frac_end(s, k) {
            None => None,
            Some(k2) => exp_end(s, k2),
        }
    }
}

/// End of the JSON value starting exactly at `i` (no leading whitespace).
pub open spec fn value_end(s: Seq<u8>, i: int) -> Option<int>
    decreases s.len() - i, 0int,
{
    if !(0 <= i && i < s.len()) {
        None
    } else if s[i] == 123 {
        match obj_find(s, i + 1, Seq::empty()) {
            None => None,
            Some((e, _)) => Some(e),
        }
    } else if s[i] == 91 {
        arr_open(s, i + 1)
    } else if s[i] == 34 {
        string_end(s, i + 1)
    } else if s[i] == 116 {
        if i + 4 <= s.len() && s[i + 1] == 114 && s[i + 2] == 117 && s[i + 3] == 101 {
            Some(i + 4)
        } else {
            None
        }
    } else if s[i] == 102 {
        if i + 5 <= s.len() && s[i + 1] == 97 && s[i + 2] == 108 && s[i + 3] == 115
            && s[i + 4] == 101 {
            Some(i + 5)
        } else {
            None
        }
    } else if s[i] == 110 {
        if i + 4 <= s.len() && s[i + 1] == 117 && s[i + 2] == 108 && s[i + 3] == 108 {
            Some(i + 4)
        } else {
            None
        }
    } else if s[i] == 45 || is_digit(s[i]) {
        number_end(s, i)
    } else {
        None
    }
}

/// Scan an object body, `i` standing just after the opening brace. Returns
/// the index after the closing brace, together with the span of the value of
/// the first member whose key equals `key`, if there is one.
pub open spec fn obj_find(s: Seq<u8>, i: int, key: Seq<u8>) -> Option<(int, Option<(int, int)>)>
    decreases s.len() - i, 3int,
{
    if !(0 <= i && i < s.len()) {
        None
    } else if is_ws(s[i]) {
        obj_find(s, i + 1, key)
    } else if s[i] == 125 {
        Some((i + 1, None))
    } else if s[i] == 34 {
        obj_key(s, i, key)
    } else {
        None
    }
}

/// `s[i]` is the opening quote of a member key.
pub open spec fn obj_key(s: Seq<u8>, i: int, key: Seq<u8>) -> Option<(int, Option<(int, int)>)>
    decreases s.len() - i, 1int,
{
    match string_end(s, i + 1) {
        None => None,
        Some(k) => if k <= i + 1 || k > s.len() {
            None
        } else {
            obj_colon(s, k, key, s.subrange(i + 1, k - 1) == key)
        },
    }
}

/// Between a member's key and its colon.
pub open spec fn obj_colon(s: Seq<u8>, i: int, key: Seq<u8>, matched: bool)
    -> Option<(int, Option<(int, int)>)>
    decreases s.len() - i, 3int,
{
    if !(0 <= i && i < s.len()) {
        None
    } else if is_ws(s[i]) {
        obj_colon(s, i + 1, key, matched)
    } else if s[i] == 58 {
        obj_val(s, i + 1, key, matched)
    } else {
        None
    }
}

/// Between a member's colon and its value.
pub open spec fn obj_val(s: Seq<u8>, i: int, key: Seq<u8>, matched: bool)
    -> Option<(int, Option<(int, int)>)>
    decreases s.len() - i, 2int,
{
    if !(0 <= i && i < s.len()) {
        None
    } else if is_ws(s[i]) {
        obj_val(s, i + 1, key, matched)
    } else {
        match value_end(s, i) {
            None => None,
            Some(k) => if k <= i || k > s.len() {
                None
            } else {
                match obj_rest(s, k, key) {
                    None => None,
                    Some((e, found)) => Some((e, if matched { Some((i, k)) } else { found })),
                }
            },
        }
    }
}

/// After a member's value: either the closing brace or a comma.
pub open spec fn obj_rest(s: Seq<u8>, i: int, key: Seq<u8>) -> Option<(int, Option<(int, int)>)>
    decreases s.len() - i, 3int,
{
    if !(0 <= i && i < s.len()) {
        None
    } else if is_ws(s[i]) {
        obj_rest(s, i + 1, key)
    } else if s[i] == 125 {
        Some((i + 1, None))
    } else if s[i] == 44 {
        obj_next(s, i + 1, key)
    } else {
        None
    }
}

/// After a comma inside an object: the next member's key must follow.
pub open spec fn obj_next(s: Seq<u8>, i: int, key: Seq<u8>) -> Option<(int, Option<(int, int)>)>
    decreases s.len() - i, 3int,
{
    if !(0 <= i && i < s.len()) {
        None
    } else if is_ws(s[i]) {
        obj_next(s, i + 1, key)
    } else if s[i] == 34 {
        obj_key(s, i, key)
    } else {
        None
    }
}

/// Scan an array body, `i` standing just after the opening bracket.
pub open spec fn arr_open(s: Seq<u8>, i: int) -> Option<int>
    decreases s.len() - i, 3int,
{
    if !(0 <= i && i < s.len()) {
        None
    } else if is_ws(s[i]) {
        arr_open(s, i + 1)
    } else if s[i] == 93 {
        Some(i + 1)
    } else {
        arr_item(s, i)
    }
}

/// An array element starts exactly at `i`.
pub open spec fn arr_item(s: Seq<u8>, i: int) -> Option<int>
    decreases s.len() - i, 1int,
{
    match value_end(s, i) {
        None => None,
        Some(k) => if k <= i || k > s.len() {
            None
        } else {
            arr_rest(s, k)
        },
    }
}

/// After an array element: either the closing bracket or a comma.
pub open spec fn arr_rest(s: Seq<u8>, i: int) -> Option<int>
    decreases s.len() - i, 3int,
{
    if !(0 <= i && i < s.len()) {
        None
    } else if is_ws(s[i]) {
        arr_rest(s, i + 1)
    } else if s[i] == 93 {
        Some(i + 1)
    } else if s[i] == 44 {
        arr_next(s, i + 1)
    } else {
        None
    }
}

/// After a comma inside an array: another element must follow.
pub open spec fn arr_next(s: Seq<u8>, i: int) -> Option<int>
    decreases s.len() - i, 2int,
{
    if !(0 <= i && i < s.len()) {
        None
    } else if is_ws(s[i]) {
        arr_next(s, i + 1)
    } else {
        arr_item(s, i)
    }
}

/// The bytes of the key "id".
pub open spec fn key_id() -> Seq<u8> {
    seq![105u8, 100u8]
}

/// The bytes of the key "result".
pub open spec fn key_result() -> Seq<u8> {
    seq![114u8, 101u8, 115u8, 117u8, 108u8, 116u8]
}

/// The bytes of the key "error".
pub open spec fn key_error() -> Seq<u8> {
    seq![101u8, 114u8, 114u8, 111u8, 114u8]
}

/// The bytes of the key "code".
pub open spec fn key_code() -> Seq<u8> {
    seq![99u8, 111u8, 100u8, 101u8]
}

/// The bytes of the key "message".
pub open spec fn key_message() -> Seq<u8> {
    seq![109u8, 101u8, 115u8, 115u8, 97u8, 103u8, 101u8]
}

/// The number written by the digits of the span `[a, b)`.
pub open spec fn digits_val(s: Seq<u8>, a: int, b: int) -> int
    decreases b - a,
{
    if b <= a {
        0
    } else {
        digits_val(s, a, b - 1) * 10 + (s[b - 1] - 48)
    }
}

/// Every byte of the span `[a, b)` is a decimal digit.
pub open spec fn all_digits(s: Seq<u8>, a: int, b: int) -> bool {
    forall|j: int| a <= j < b ==> is_digit(s[j])
}

/// The value of the span `[a, b)` read as an integer token: an optional
/// minus sign and one to eighteen digits, nothing else.
pub open spec fn int_span(s: Seq<u8>, a: int, b: int) -> Option<int> {
    if !(0 <= a && a <= b && b <= s.len()) {
        None
    } else {
        let d = if a < b && s[a] == 45 { a + 1 } else { a };
        if b - d < 1 || b - d > 18 || !all_digits(s, d, b) {
            None
        } else {
            Some(if d > a { -digits_val(s, d, b) } else { digits_val(s, d, b) })
        }
    }
}

/// The shape the value of an "error" member must have: an object holding an
/// integer "code" and a string "message". Returns the code and the raw bytes
/// of the message (between its quotes, escapes untouched).
pub open spec fn error_shape(s: Seq<u8>, a: int, b: int) -> Option<(int, Seq<u8>)> {
    if !(0 <= a && a < b && b <= s.len() && s[a] == 123) {
        None
    } else {
        match obj_find(s, a + 1, key_code()) {
            None => None,
            Some((_, code_span)) => match obj_find(s, a + 1, key_message()) {
                None => None,
                Some((_, msg_span)) => match (code_span, msg_span) {
                    (Some((ca, cb)), Some((ma, mb))) => match int_span(s, ca, cb) {
                        None => None,
                        Some(code) => if mb - ma >= 2 && s[ma] == 34 && s[mb - 1] == 34 {
                            Some((code, s.subrange(ma + 1, mb - 1)))
                        } else {
                            None
                        },
                    },
                    _ => None,
                },
            },
        }
    }
}

/// Decide among reply, error reply and notification, given the span of the
/// value of the top-level "id" member of the frame `s`, whose opening brace
/// stands at `i`. A decodable frame with no recognized envelope is a
/// notification carrying the whole frame.
pub open spec fn classify(s: Seq<u8>, i: int, id_span: Option<(int, int)>) -> MsgView {
    match id_span {
        None => MsgView::Notification { payload: s },
        Some((a, b)) => match int_span(s, a, b) {
            None => MsgView::Notification { payload: s },
            Some(id) => match obj_find(s, i + 1, key_result()) {
                None => MsgView::Notification { payload: s },
                Some((_, result_span)) => match result_span {
                    Some((ra, rb)) => MsgView::Reply { id, result: s.subrange(ra, rb) },
                    None => match obj_find(s, i + 1, key_error()) {
                        None => MsgView::Notification { payload: s },
                        Some((_, err_span)) => match err_span {
                            None => MsgView::Notification { payload: s },
                            Some((ea, eb)) => match error_shape(s, ea, eb) {
                                None => MsgView::Notification { payload: s },
                                Some((code, message)) => MsgView::ErrorReply { id, code, message },
                            },
                        },
                    },
                },
            },
        },
    }
}

/// The meaning of one text frame; `None` means the frame is undecodable.
pub open spec fn spec_decode(s: Seq<u8>) -> Option<MsgView> {
    let i = skip_ws(s, 0);
    if !(0 <= i && i < s.len() && s[i] == 123) {
        None
    } else {
        match obj_find(s, i + 1, key_id()) {
            None => None,
            Some((e, id_span)) => if skip_ws(s, e) != s.len() {
                None
            } else {
                Some(classify(s, i, id_span))
            },
        }
    }
}

/// `10^n`.
pub open spec fn pow10(n: nat) -> int
    decreases n,
{
    if n == 0 {
        1
    } else {
        10 * pow10((n - 1) as nat)
    }
}

proof fn lemma_pow10_pos(n: nat)
    ensures
        pow10(n) >= 1,
    decreases n,
{
    if n > 0 {
        lemma_pow10_pos((n - 1) as nat);
    }
}

proof fn lemma_pow10_mono(j: nat, k: nat)
    requires
        j <= k,
    ensures
        pow10(j) <= pow10(k),
    decreases k,
{
    if j < k {
        lemma_pow10_mono(j, (k - 1) as nat);
        lemma_pow10_pos((k - 1) as nat);
    }
}

/// A sequence of digits reads as a number below `10^length`.
proof fn lemma_digits_val_bound(s: Seq<u8>, a: int, b: int)
    requires
        0 <= a <= b <= s.len(),
        all_digits(s, a, b),
    ensures
        0 <= digits_val(s, a, b) < pow10((b - a) as nat),
    decreases b - a,
{
    if a < b {
        lemma_digits_val_bound(s, a, b - 1);
        assert(is_digit(s[b - 1]));
    } else {
        lemma_pow10_pos(0);
    }
}

// ------------------------------------------------------------------
// The executable decoder, proved to agree with the grammar above.
// ------------------------------------------------------------------

fn is_ws_exec(b: u8) -> (r: bool)
    ensures
        r == is_ws(b),
{
    b == 32 || b == 9 || b == 10 || b == 13
}

fn is_hex_digit_exec(b: u8) -> (r: bool)
    ensures
        r == is_hex_digit(b),
{
    (48 <= b && b <= 57) || (97 <= b && b <= 102) || (65 <= b && b <= 70)
}

fn is_simple_escape_exec(b: u8) -> (r: bool)
    ensures
        r == is_simple_escape(b),
{
    b == 34 || b == 92 || b == 47 || b == 98 || b == 102 || b == 110 || b == 114 || b == 116
}

fn skip_ws_exec(s: &Vec<u8>, i: usize) -> (r: usize)
    requires
        i <= s@.len(),
    ensures
        i <= r <= s@.len(),
        r == skip_ws(s@, i as int),
{
    let mut j = i;
    while j < s.len() && is_ws_exec(s[j])
        invariant
            i <= j <= s@.len(),
            skip_ws(s@, i as int) == skip_ws(s@, j as int),
        decreases s@.len() - j,
    {
        j = j + 1;
    }
    j
}

fn string_end_exec(s: &Vec<u8>, i: usize) -> (r: Option<usize>)
    requires
        i <= s@.len(),
    ensures
        match r {
            Some(k) => string_end(s@, i as int) == Some(k as int) && i < k <= s@.len(),
            None => string_end(s@, i as int) is None,
        },
    decreases s@.len() - i,
{
    if i >= s.len() {
        return None;
    }
    let c = s[i];
    if c == 34 {
        Some(i + 1)
    } else if c == 92 {
        if s.len() - i > 1 && is_simple_escape_exec(s[i + 1]) {
            string_end_exec(s, i + 2)
        } else if s.len() - i > 5 && s[i + 1] == 117 && is_hex_digit_exec(s[i + 2])
            && is_hex_digit_exec(s[i + 3]) && is_hex_digit_exec(s[i + 4])
            && is_hex_digit_exec(s[i + 5]) {
            string_end_exec(s, i + 6)
        } else {
            None
        }
    } else if c >= 32 {
        string_end_exec(s, i + 1)
    } else {
        None
    }
}

fn digits_end_exec(s: &Vec<u8>, i: usize) -> (r: usize)
    requires
        i <= s@.len(),
    ensures
        i <= r <= s@.len(),
        r == digits_end(s@, i as int),
{
    let mut j = i;
    while j < s.len() && 48 <= s[j] && s[j] <= 57
        invariant
            i <= j <= s@.len(),
            digits_end(s@, i as int) == digits_end(s@, j as int),
        decreases s@.len() - j,
    {
        j = j + 1;
    }
    j
}

fn frac_end_exec(s: &Vec<u8>, k: usize) -> (r: Option<usize>)
    requires
        k <= s@.len(),
    ensures
        match r {
            Some(m) => frac_end(s@, k as int) == Some(m as int) && k <= m <= s@.len(),
            None => frac_end(s@, k as int) is None,
        },
{
    if k < s.len() && s[k] == 46 {
        let m = digits_end_exec(s, k + 1);
        if m > k + 1 {
            Some(m)
        } else {
            None
        }
    } else {
        Some(k)
    }
}

fn exp_end_exec(s: &Vec<u8>, k: usize) -> (r: Option<usize>)
    requires
        k <= s@.len(),
    ensures
        match r {
            Some(m) => exp_end(s@, k as int) == Some(m as int) && k <= m <= s@.len(),
            None => exp_end(s@, k as int) is None,
        },
{
    let n = s.len();
    if k < n && (s[k] == 101 || s[k] == 69) {
        let d = if n - k > 1 && (s[k + 1] == 43 || s[k + 1] == 45) {
            k + 2
        } else {
            k + 1
        };
        let m = digits_end_exec(s, d);
        if m > d {
            Some(m)
        } else {
            None
        }
    } else {
        Some(k)
    }
}

fn number_end_exec(s: &Vec<u8>, i: usize) -> (r: Option<usize>)
    requires
        i <= s@.len(),
    ensures
        match r {
            Some(k) => number_end(s@, i as int) == Some(k as int) && i <= k <= s@.len(),
            None => number_end(s@, i as int) is None,
        },
{
    let d = if i < s.len() && s[i] == 45 {
        i + 1
    } else {
        i
    };
    let k = digits_end_exec(s, d);
    if k <= d {
        return None;
    }
    match frac_end_exec(s, k) {
        None => None,
        Some(k2) => exp_end_exec(s, k2),
    }
}

/// Whether the bytes of the span `[a, b)` equal `key`.
fn bytes_eq(s: &Vec<u8>, a: usize, b: usize, key: &Vec<u8>) -> (r: bool)
    requires
        a <= b <= s@.len(),
    ensures
        r == (s@.subrange(a as int, b as int) == key@),
{
    if b - a != key.len() {
        assert(s@.subrange(a as int, b as int).len() != key@.len());
        return false;
    }
    let mut j: usize = 0;
    while j < key.len()
        invariant
            0 <= j <= key@.len(),
            a + key@.len() == b <= s@.len(),
            forall|t: int| 0 <= t < j ==> s@[a + t] == key@[t],
        decreases key@.len() - j,
    {
        if s[a + j] != key[j] {
            assert(s@.subrange(a as int, b as int)[j as int] != key@[j as int]);
            return false;
        }
        j = j + 1;
    }
    assert(s@.subrange(a as int, b as int) =~= key@);
    true
}

/// What the executable object scanners promise about the matching spec
/// scanner result `g`.
pub open spec fn obj_post(
    r: Option<(usize, Option<(usize, usize)>)>,
    g: Option<(int, Option<(int, int)>)>,
    s: Seq<u8>,
    i: int,
) -> bool {
    match r {
        None => g is None,
        Some((e, sp)) => {
            &&& g == Some((e as int, span_view(sp)))
            &&& i < e <= s.len()
            &&& match sp {
                None => true,
                Some((a, b)) => i <= a && a < b && b <= s.len(),
            }
        },
    }
}

/// The spans of an executable scanner result, as mathematical integers.
pub open spec fn span_view(p: Option<(usize, usize)>) -> Option<(int, int)> {
    match p {
        None => None,
        Some((a, b)) => Some((a as int, b as int)),
    }
}

fn obj_find_exec(s: &Vec<u8>, i: usize, key: &Vec<u8>) -> (r: Option<(usize, Option<(usize, usize)>)>)
    requires
        i <= s@.len(),
    ensures
        obj_post(r, obj_find(s@, i as int, key@), s@, i as int),
    decreases s@.len() - i, 3int,
{
    if i >= s.len() {
        None
    } else if is_ws_exec(s[i]) {
        obj_find_exec(s, i + 1, key)
    } else if s[i] == 125 {
        Some((i + 1, None))
    } else if s[i] == 34 {
        obj_key_exec(s, i, key)
    } else {
        None
    }
}

fn obj_key_exec(s: &Vec<u8>, i: usize, key: &Vec<u8>) -> (r: Option<(usize, Option<(usize, usize)>)>)
    requires
        i < s@.len(),
    ensures
        obj_post(r, obj_key(s@, i as int, key@), s@, i as int),
    decreases s@.len() - i, 1int,
{
    let n = s.len();
    match string_end_exec(s, i + 1) {
        None => None,
        Some(k) => {
            if k <= i + 1 || k > n {
                None
            } else {
                let matched = bytes_eq(s, i + 1, k - 1, key);
                obj_colon_exec(s, k, key, matched)
            }
        },
    }
}

fn obj_colon_exec(s: &Vec<u8>, i: usize, key: &Vec<u8>, matched: bool)
    -> (r: Option<(usize, Option<(usize, usize)>)>)
    requires
        i <= s@.len(),
    ensures
        obj_post(r, obj_colon(s@, i as int, key@, matched), s@, i as int),
    decreases s@.len() - i, 3int,
{
    if i >= s.len() {
        None
    } else if is_ws_exec(s[i]) {
        obj_colon_exec(s, i + 1, key, matched)
    } else if s[i] == 58 {
        obj_val_exec(s, i + 1, key, matched)
    } else {
        None
    }
}

fn obj_val_exec(s: &Vec<u8>, i: usize, key: &Vec<u8>, matched: bool)
    -> (r: Option<(usize, Option<(usize, usize)>)>)
    requires
        i <= s@.len(),
    ensures
        obj_post(r, obj_val(s@, i as int, key@, matched), s@, i as int),
    decreases s@.len() - i, 2int,
{
    if i >= s.len() {
        None
    } else if is_ws_exec(s[i]) {
        obj_val_exec(s, i + 1, key, matched)
    } else {
        match value_end_exec(s, i) {
            None => None,
            Some(k) => {
                if k <= i || k > s.len() {
                    None
                } else {
                    match obj_rest_exec(s, k, key) {
                        None => None,
                        Some((e, found)) => Some((e, if matched { Some((i, k)) } else { found })),
                    }
                }
            },
        }
    }
}

fn obj_rest_exec(s: &Vec<u8>, i: usize, key: &Vec<u8>)
    -> (r: Option<(usize, Option<(usize, usize)>)>)
    requires
        i <= s@.len(),
    ensures
        obj_post(r, obj_rest(s@, i as int, key@), s@, i as int),
    decreases s@.len() - i, 3int,
{
    if i >= s.len() {
        None
    } else if is_ws_exec(s[i]) {
        obj_rest_exec(s, i + 1, key)
    } else if s[i] == 125 {
        Some((i + 1, None))
    } else if s[i] == 44 {
        obj_next_exec(s, i + 1, key)
    } else {
        None
    }
}

fn obj_next_exec(s: &Vec<u8>, i: usize, key: &Vec<u8>)
    -> (r: Option<(usize, Option<(usize, usize)>)>)
    requires
        i <= s@.len(),
    ensures
        obj_post(r, obj_next(s@, i as int, key@), s@, i as int),
    decreases s@.len() - i, 3int,
{
    if i >= s.len() {
        None
    } else if is_ws_exec(s[i]) {
        obj_next_exec(s, i + 1, key)
    } else if s[i] == 34 {
        obj_key_exec(s, i, key)
    } else {
        None
    }
}

fn arr_open_exec(s: &Vec<u8>, i: usize) -> (r: Option<usize>)
    requires
        i <= s@.len(),
    ensures
        match r {
            Some(k) => arr_open(s@, i as int) == Some(k as int) && i < k <= s@.len(),
            None => arr_open(s@, i as int) is None,
        },
    decreases s@.len() - i, 3int,
{
    if i >= s.len() {
        None
    } else if is_ws_exec(s[i]) {
        arr_open_exec(s, i + 1)
    } else if s[i] == 93 {
        Some(i + 1)
    } else {
        arr_item_exec(s, i)
    }
}

fn arr_item_exec(s: &Vec<u8>, i: usize) -> (r: Option<usize>)
    requires
        i <= s@.len(),
    ensures
        match r {
            Some(k) => arr_item(s@, i as int) == Some(k as int) && i < k <= s@.len(),
            None => arr_item(s@, i as int) is None,
        },
    decreases s@.len() - i, 1int,
{
    match value_end_exec(s, i) {
        None => None,
        Some(k) => {
            if k <= i || k > s.len() {
                None
            } else {
                arr_rest_exec(s, k)
            }
        },
    }
}

fn arr_rest_exec(s: &Vec<u8>, i: usize) -> (r: Option<usize>)
    requires
        i <= s@.len(),
    ensures
        match r {
            Some(k) => arr_rest(s@, i as int) == Some(k as int) && i <= k <= s@.len(),
            None => arr_rest(s@, i as int) is None,
        },
    decreases s@.len() - i, 3int,
{
    if i >= s.len() {
        None
    } else if is_ws_exec(s[i]) {
        arr_rest_exec(s, i + 1)
    } else if s[i] == 93 {
        Some(i + 1)
    } else if s[i] == 44 {
        arr_next_exec(s, i + 1)
    } else {
        None
    }
}

fn arr_next_exec(s: &Vec<u8>, i: usize) -> (r: Option<usize>)
    requires
        i <= s@.len(),
    ensures
        match r {
            Some(k) => arr_next(s@, i as int) == Some(k as int) && i <= k <= s@.len(),
            None => arr_next(s@, i as int) is None,
        },
    decreases s@.len() - i, 2int,
{
    if i >= s.len() {
        None
    } else if is_ws_exec(s[i]) {
        arr_next_exec(s, i + 1)
    } else {
        arr_item_exec(s, i)
    }
}

fn value_end_exec(s: &Vec<u8>, i: usize) -> (r: Option<usize>)
    requires
        i <= s@.len(),
    ensures
        match r {
            Some(k) => value_end(s@, i as int) == Some(k as int) && i < k <= s@.len(),
            None => value_end(s@, i as int) is None,
        },
    decreases s@.len() - i, 0int,
{
    if i >= s.len() {
        return None;
    }
    let c = s[i];
    if c == 123 {
        let empty: Vec<u8> = Vec::new();
        assert(empty@ =~= Seq::<u8>::empty());
        match obj_find_exec(s, i + 1, &empty) {
            None => None,
            Some((e, _)) => Some(e),
        }
    } else if c == 91 {
        arr_open_exec(s, i + 1)
    } else if c == 34 {
        string_end_exec(s, i + 1)
    } else if c == 116 {
        if s.len() - i >= 4 && s[i + 1] == 114 && s[i + 2] == 117 && s[i + 3] == 101 {
            Some(i + 4)
        } else {
            None
        }
    } else if c == 102 {
        if s.len() - i >= 5 && s[i + 1] == 97 && s[i + 2] == 108 && s[i + 3] == 115
            && s[i + 4] == 101 {
            Some(i + 5)
        } else {
            None
        }
    } else if c == 110 {
        if s.len() - i >= 4 && s[i + 1] == 117 && s[i + 2] == 108 && s[i + 3] == 108 {
            Some(i + 4)
        } else {
            None
        }
    } else if c == 45 || (48 <= c && c <= 57) {
        number_end_exec(s, i)
    } else {
        None
    }
}

/// Read the span `[a, b)` as a signed integer token, if it is one.
fn int_span_exec(s: &Vec<u8>, a: usize, b: usize) -> (r: Option<i64>)
    requires
        a <= b <= s@.len(),
    ensures
        match r {
            Some(v) => int_span(s@, a as int, b as int) == Some(v as int),
            None => int_span(s@, a as int, b as int) is None,
        },
{
    let neg = a < b && s[a] == 45;
    let d = if neg { a + 1 } else { a };
    if b - d < 1 || b - d > 18 {
        return None;
    }
    let mut i = d;
    let mut acc: i64 = 0;
    while i < b
        invariant
            a <= d <= i <= b <= s@.len(),
            1 <= b - d <= 18,
            neg == ((a as int) < (b as int) && s@[a as int] == 45),
            d as int == (if neg {
                a as int + 1
            } else {
                a as int
            }),
            all_digits(s@, d as int, i as int),
            acc == digits_val(s@, d as int, i as int),
            0 <= acc,
            acc < pow10((i - d) as nat),
        decreases b - i,
    {
        let c = s[i];
        if c < 48 || c > 57 {
            proof {
                assert(!is_digit(s@[i as int]));
                assert(!all_digits(s@, d as int, b as int));
            }
            return None;
        }
        proof {
            lemma_pow10_mono((i - d) as nat, 17);
            assert(pow10(17) == 100000000000000000) by {
                reveal_with_fuel(pow10, 18);
            }
        }
        acc = acc * 10 + ((c - 48) as i64);
        i = i + 1;
    }
    if neg {
        Some(-acc)
    } else {
        Some(acc)
    }
}

/// A fresh vector holding the bytes of the span `[a, b)`.
fn copy_span(s: &Vec<u8>, a: usize, b: usize) -> (r: Vec<u8>)
    requires
        a <= b <= s@.len(),
    ensures
        r@ == s@.subrange(a as int, b as int),
{
    let mut out: Vec<u8> = Vec::new();
    let mut j = a;
    while j < b
        invariant
            a <= j <= b <= s@.len(),
            out@ == s@.subrange(a as int, j as int),
        decreases b - j,
    {
        out.push(s[j]);
        assert(out@ =~= s@.subrange(a as int, j + 1));
        j = j + 1;
    }
    out
}

/// A fresh vector holding all of `s`.
fn copy_all(s: &Vec<u8>) -> (r: Vec<u8>)
    ensures
        r@ == s@,
{
    let r = copy_span(s, 0, s.len());
    assert(s@.subrange(0, s@.len() as int) =~= s@);
    r
}

fn make_key_id() -> (r: Vec<u8>)
    ensures
        r@ == key_id(),
{
    let mut v: Vec<u8> = Vec::new();
    v.push(105);
    v.push(100);
    assert(v@ =~= key_id());
    v
}

fn make_key_result() -> (r: Vec<u8>)
    ensures
        r@ == key_result(),
{
    let mut v: Vec<u8> = Vec::new();
    v.push(114);
    v.push(101);
    v.push(115);
    v.push(117);
    v.push(108);
    v.push(116);
    assert(v@ =~= key_result());
    v
}

fn make_key_error() -> (r: Vec<u8>)
    ensures
        r@ == key_error(),
{
    let mut v: Vec<u8> = Vec::new();
    v.push(101);
    v.push(114);
    v.push(114);
    v.push(111);
    v.push(114);
    assert(v@ =~= key_error());
    v
}

fn make_key_code() -> (r: Vec<u8>)
    ensures
        r@ == key_code(),
{
    let mut v: Vec<u8> = Vec::new();
    v.push(99);
    v.push(111);
    v.push(100);
    v.push(101);
    assert(v@ =~= key_code());
    v
}

fn make_key_message() -> (r: Vec<u8>)
    ensures
        r@ == key_message(),
{
    let mut v: Vec<u8> = Vec::new();
    v.push(109);
    v.push(101);
    v.push(115);
    v.push(115);
    v.push(97);
    v.push(103);
    v.push(101);
    assert(v@ =~= key_message());
    v
}

fn error_shape_exec(s: &Vec<u8>, a: usize, b: usize) -> (r: Option<(i64, Vec<u8>)>)
    requires
        a <= b <= s@.len(),
    ensures
        match r {
            Some((c, m)) => error_shape(s@, a as int, b as int) == Some((c as int, m@)),
            None => error_shape(s@, a as int, b as int) is None,
        },
{
    if !(a < b && s[a] == 123) {
        return None;
    }
    let kc = make_key_code();
    match obj_find_exec(s, a + 1, &kc) {
        None => None,
        Some((_, code_span)) => {
            let km = make_key_message();
            match obj_find_exec(s, a + 1, &km) {
                None => None,
                Some((_, msg_span)) => {
                    match (code_span, msg_span) {
                        (Some((ca, cb)), Some((ma, mb))) => {
                            match int_span_exec(s, ca, cb) {
                                None => None,
                                Some(code) => {
                                    if mb - ma >= 2 && s[ma] == 34 && s[mb - 1] == 34 {
                                        Some((code, copy_span(s, ma + 1, mb - 1)))
                                    } else {
                                        None
                                    }
                                },
                            }
                        },
                        _ => None,
                    }
                },
            }
        },
    }
}

fn classify_exec(s: &Vec<u8>, i: usize, id_span: Option<(usize, usize)>) -> (r: InboundMessage)
    requires
        i < s@.len(),
        match id_span {
            None => true,
            Some((a, b)) => a < b && b <= s@.len(),
        },
    ensures
        r@ == classify(s@, i as int, span_view(id_span)),
{
    let n = s.len();
    assert(i < n);
    match id_span {
        None => InboundMessage::Notification { payload: copy_all(s) },
        Some((a, b)) => {
            match int_span_exec(s, a, b) {
                None => InboundMessage::Notification { payload: copy_all(s) },
                Some(id) => {
                    let kr = make_key_result();
                    match obj_find_exec(s, i + 1, &kr) {
                        None => InboundMessage::Notification {
                            payload: copy_all(s),
                        },
                        Some((_, result_span)) => {
                            match result_span {
                                Some((ra, rb)) => InboundMessage::Reply {
                                    id,
                                    result: copy_span(s, ra, rb),
                                },
                                None => {
                                    let ke = make_key_error();
                                    match obj_find_exec(s, i + 1, &ke) {
                                        None => InboundMessage::Notification {
                                            payload: copy_all(s),
                                        },
                                        Some((_, err_span)) => {
                                            match err_span {
                                                None => InboundMessage::Notification {
                                                    payload: copy_all(s),
                                                },
                                                Some((ea, eb)) => {
                                                    match error_shape_exec(s, ea, eb) {
                                                        None => InboundMessage::Notification {
                                                            payload: copy_all(s),
                                                        },
                                                        Some((code, message)) => {
                                                            InboundMessage::ErrorReply {
                                                                id,
                                                                code,
                                                                message,
                                                            }
                                                        },
                                                    }
                                                },
                                            }
                                        },
                                    }
                                },
                            }
                        },
                    }
                },
            }
        },
    }
}

// ------------------------------------------------------------------
// The request encoder.
// ------------------------------------------------------------------

/// The decimal digits of `n`, most significant first; empty for zero.
pub open spec fn dec_digits(n: int) -> Seq<u8>
    decreases n,
{
    if n <= 0 {
        Seq::empty()
    } else {
        dec_digits(n / 10) + seq![(48 + n % 10) as u8]
    }
}

/// `n` written in decimal.
pub open spec fn spec_dec(n: int) -> Seq<u8> {
    if n == 0 {
        seq![48u8]
    } else {
        dec_digits(n)
    }
}

/// The hexadecimal digit with value `n`, lower case.
pub open spec fn hex_digit(n: int) -> u8 {
    if n < 10 {
        (48 + n) as u8
    } else {
        (87 + n) as u8
    }
}

/// The escaped form of one byte inside an encoded string: quote and
/// backslash get a backslash, control bytes a four-digit escape.
pub open spec fn esc_byte(b: u8) -> Seq<u8> {
    if b == 34 {
        seq![92u8, 34u8]
    } else if b == 92 {
        seq![92u8, 92u8]
    } else if b < 32 {
        seq![92u8, 117u8, 48u8, 48u8, hex_digit(b as int / 16), hex_digit(b as int % 16)]
    } else {
        seq![b]
    }
}

/// The escaped form of a byte string.
pub open spec fn spec_escape(s: Seq<u8>) -> Seq<u8>
    decreases s.len(),
{
    if s.len() == 0 {
        Seq::empty()
    } else {
        spec_escape(s.drop_last()) + esc_byte(s.last())
    }
}

/// The bytes `{"id":`.
pub open spec fn lit_id_prefix() -> Seq<u8> {
    seq![123u8, 34u8, 105u8, 100u8, 34u8, 58u8]
}

/// The bytes `,"method":"`.
pub open spec fn lit_method_prefix() -> Seq<u8> {
    seq![44u8, 34u8, 109u8, 101u8, 116u8, 104u8, 111u8, 100u8, 34u8, 58u8, 34u8]
}

/// The bytes `","params":`.
pub open spec fn lit_params_prefix() -> Seq<u8> {
    seq![34u8, 44u8, 34u8, 112u8, 97u8, 114u8, 97u8, 109u8, 115u8, 34u8, 58u8]
}

/// The bytes `null`.
pub open spec fn lit_null() -> Seq<u8> {
    seq![110u8, 117u8, 108u8, 108u8]
}

/// The view of an optional parameter payload.
pub open spec fn opt_seq(p: &Option<Vec<u8>>) -> Option<Seq<u8>> {
    match p {
        Some(v) => Some(v@),
        None => None,
    }
}

/// The encoded request envelope
/// `{"id":<id>,"method":"<method escaped>","params":<params or null>}`.
pub open spec fn spec_encode_request(id: int, method: Seq<u8>, params: Option<Seq<u8>>) -> Seq<u8> {
    lit_id_prefix() + spec_dec(id) + lit_method_prefix() + spec_escape(method)
        + lit_params_prefix() + (match params {
        Some(p) => p,
        None => lit_null(),
    }) + seq![125u8]
}

fn push_digits(out: &mut Vec<u8>, x: i64)
    requires
        0 <= x,
    ensures
        final(out)@ == old(out)@ + dec_digits(x as int),
    decreases x,
{
    if x == 0 {
        assert(out@ =~= old(out)@ + dec_digits(0));
        return;
    }
    push_digits(out, x / 10);
    out.push(48 + (x % 10) as u8);
    assert(out@ =~= old(out)@ + dec_digits(x as int));
}

fn push_dec(out: &mut Vec<u8>, x: i64)
    requires
        0 <= x,
    ensures
        final(out)@ == old(out)@ + spec_dec(x as int),
{
    if x == 0 {
        out.push(48);
        assert(out@ =~= old(out)@ + spec_dec(0));
    } else {
        push_digits(out, x);
    }
}

fn hex_digit_exec(n: u8) -> (r: u8)
    requires
        n < 16,
    ensures
        r == hex_digit(n as int),
{
    if n < 10 {
        48 + n
    } else {
        87 + n
    }
}

fn push_escaped(out: &mut Vec<u8>, s: &Vec<u8>)
    ensures
        final(out)@ == old(out)@ + spec_escape(s@),
{
    let mut i: usize = 0;
    while i < s.len()
        invariant
            i <= s@.len(),
            out@ == old(out)@ + spec_escape(s@.take(i as int)),
        decreases s@.len() - i,
    {
        let b = s[i];
        if b == 34 {
            out.push(92);
            out.push(34);
        } else if b == 92 {
            out.push(92);
            out.push(92);
        } else if b < 32 {
            out.push(92);
            out.push(117);
            out.push(48);
            out.push(48);
            out.push(hex_digit_exec(b / 16));
            out.push(hex_digit_exec(b % 16));
        } else {
            out.push(b);
        }
        proof {
            assert(s@.take(i + 1).drop_last() =~= s@.take(i as int));
            assert(s@.take(i + 1).last() == s@[i as int]);
            assert(out@ =~= old(out)@ + spec_escape(s@.take(i + 1)));
        }
        i = i + 1;
    }
    assert(s@.take(s@.len() as int) =~= s@);
}

fn push_all(out: &mut Vec<u8>, p: &Vec<u8>)
    ensures
        final(out)@ == old(out)@ + p@,
{
    let mut i: usize = 0;
    while i < p.len()
        invariant
            i <= p@.len(),
            out@ == old(out)@ + p@.take(i as int),
        decreases p@.len() - i,
    {
        out.push(p[i]);
        assert(out@ =~= old(out)@ + p@.take(i + 1));
        i = i + 1;
    }
    assert(p@.take(p@.len() as int) =~= p@);
}

/// Encode an outgoing request envelope. The identifier is written in
/// decimal, the method name is escaped, and the parameter payload — already
/// encoded by the caller — is spliced in verbatim, `null` standing for none.
pub fn encode_request(id: i64, method: &Vec<u8>, params: &Option<Vec<u8>>) -> (r: Vec<u8>)
    requires
        0 <= id,
    ensures
        r@ == spec_encode_request(id as int, method@, opt_seq(params)),
{
    let mut out: Vec<u8> = Vec::new();
    out.push(123);
    out.push(34);
    out.push(105);
    out.push(100);
    out.push(34);
    out.push(58);
    assert(out@ =~= lit_id_prefix());
    push_dec(&mut out, id);
    out.push(44);
    out.push(34);
    out.push(109);
    out.push(101);
    out.push(116);
    out.push(104);
    out.push(111);
    out.push(100);
    out.push(34);
    out.push(58);
    out.push(34);
    assert(out@ =~= lit_id_prefix() + spec_dec(id as int) + lit_method_prefix());
    push_escaped(&mut out, method);
    out.push(34);
    out.push(44);
    out.push(34);
    out.push(112);
    out.push(97);
    out.push(114);
    out.push(97);
    out.push(109);
    out.push(115);
    out.push(34);
    out.push(58);
    assert(out@ =~= lit_id_prefix() + spec_dec(id as int) + lit_method_prefix()
        + spec_escape(method@) + lit_params_prefix());
    match params {
        Some(p) => push_all(&mut out, p),
        None => {
            out.push(110);
            out.push(117);
            out.push(108);
            out.push(108);
        },
    }
    out.push(125);
    assert(out@ =~= spec_encode_request(id as int, method@, opt_seq(params)));
    out
}

/// Decode one text frame. Returns `None` exactly on the frames the grammar
/// rejects; otherwise the message [`spec_decode`] assigns to the frame.
pub fn decode(s: &Vec<u8>) -> (r: Option<InboundMessage>)
    ensures
        match r {
            Some(m) => spec_decode(s@) == Some(m@),
            None => spec_decode(s@) is None,
        },
{
    let i = skip_ws_exec(s, 0);
    if i >= s.len() || s[i] != 123 {
        return None;
    }
    let kid = make_key_id();
    match obj_find_exec(s, i + 1, &kid) {
        None => None,
        Some((e, id_span)) => {
            let t = skip_ws_exec(s, e);
            if t != s.len() {
                None
            } else {
                Some(classify_exec(s, i, id_span))
            }
        },
    }
}

} // verus!
