//! Lossless escaping of arbitrary bytes into printable text.
//!
//! Runs of valid UTF-8 are copied as text with every `%` doubled; each byte
//! where decoding fails becomes `%` followed by its lowercase hexadecimal value
//! (no zero padding), and decoding resumes at the next byte.
use vstd::prelude::*;
use vstd::utf8::*;
use crate::text::{digit_char, hex, push_char, push_hex_byte};

verus! {

/// `k` is where UTF-8 validation of `b` stops: the largest index such that
/// `b[..k]` is valid UTF-8.
pub open spec fn is_valid_up_to(b: Seq<u8>, k: int) -> bool {
    &&& 0 <= k <= b.len()
    &&& valid_utf8(b.take(k))
    &&& forall|j: int| k < j <= b.len() ==> !valid_utf8(#[trigger] b.take(j))
}

/// The length of the valid UTF-8 run at the start of `b`, read scalar by scalar.
pub open spec fn valid_prefix_len(b: Seq<u8>) -> nat
    decreases b.len(),
{
    if b.len() > 0 && valid_first_scalar(b) {
        (length_of_first_scalar(b) + valid_prefix_len(pop_first_scalar(b))) as nat
    } else {
        0
    }
}

/// `cs` with every `%` doubled.
pub open spec fn escape_text(cs: Seq<char>) -> Seq<char>
    decreases cs.len(),
{
    if cs.len() == 0 {
        seq![]
    } else if cs.last() == '%' {
        escape_text(cs.drop_last()) + seq!['%', '%']
    } else {
        escape_text(cs.drop_last()).push(cs.last())
    }
}

/// The escape token that stands for a byte outside any valid run.
pub open spec fn escape_token(b: u8) -> Seq<char> {
    seq!['%'] + hex(b as nat)
}

/// The escaped form of `b`: the valid run at its start as text with `%`
/// doubled, then, if a byte remains, its escape token and the escaped form of
/// what follows that byte.
pub open spec fn escaped(b: Seq<u8>) -> Seq<char>
    decreases b.len(),
{
    let k = valid_prefix_len(b);
    if k >= b.len() {
        escape_text(decode_utf8(b))
    } else {
        escape_text(decode_utf8(b.take(k as int))) + escape_token(b[k as int]) + escaped(
            b.skip((k + 1) as int),
        )
    }
}

/// A valid first scalar depends only on the bytes that encode it.
proof fn lemma_first_scalar_prefix(b: Seq<u8>, c: Seq<u8>)
    requires
        valid_first_scalar(b),
        length_of_first_scalar(b) <= c.len(),
        forall|i: int| 0 <= i < length_of_first_scalar(b) ==> c[i] == b[i],
    ensures
        valid_first_scalar(c),
        length_of_first_scalar(c) == length_of_first_scalar(b),
        decode_first_scalar(c) == decode_first_scalar(b),
{
    assert(c[0] == b[0]);
    if length_of_first_scalar(b) >= 2 {
        assert(c[1] == b[1]);
    }
    if length_of_first_scalar(b) >= 3 {
        assert(c[2] == b[2]);
    }
    if length_of_first_scalar(b) >= 4 {
        assert(c[3] == b[3]);
    }
}

/// The run read scalar by scalar is exactly where UTF-8 validation stops.
pub proof fn lemma_valid_prefix(b: Seq<u8>)
    ensures
        valid_prefix_len(b) <= b.len(),
        is_valid_up_to(b, valid_prefix_len(b) as int),
    decreases b.len(),
{
    let k = valid_prefix_len(b) as int;
    if b.len() > 0 && valid_first_scalar(b) {
        let n = length_of_first_scalar(b);
        let rest = pop_first_scalar(b);
        lemma_valid_prefix(rest);
        let kr = valid_prefix_len(rest) as int;
        let t = b.take(k);
        lemma_first_scalar_prefix(b, t);
        assert(pop_first_scalar(t) =~= rest.take(kr));
        assert(valid_utf8(t));
        assert forall|j: int| k < j <= b.len() implies !valid_utf8(#[trigger] b.take(j)) by {
            if valid_utf8(b.take(j)) {
                let tj = b.take(j);
                lemma_first_scalar_prefix(tj, b);
                assert(pop_first_scalar(tj) =~= rest.take(j - n));
                assert(!valid_utf8(rest.take(j - n)));
            }
        }
    } else {
        assert(b.take(0) =~= Seq::<u8>::empty());
        assert forall|j: int| 0 < j <= b.len() implies !valid_utf8(#[trigger] b.take(j)) by {
            if valid_utf8(b.take(j)) {
                lemma_first_scalar_prefix(b.take(j), b);
            }
        }
    }
}

/// Where UTF-8 validation stops is determined by the bytes.
proof fn lemma_valid_up_to_unique(b: Seq<u8>, k: int)
    requires
        is_valid_up_to(b, k),
    ensures
        k == valid_prefix_len(b),
{
    lemma_valid_prefix(b);
    let g = valid_prefix_len(b) as int;
    if k < g {
        assert(!valid_utf8(b.take(g)));
    } else if g < k {
        assert(!valid_utf8(b.take(k)));
    }
}

/// Relies on `std::str::from_utf8`: it succeeds exactly on valid UTF-8 and
/// then holds the decoded text; otherwise its error's `valid_up_to` is the
/// largest index such that the bytes before it are valid UTF-8.
#[verifier::external_body]
fn utf8_text(v: &[u8]) -> (r: Result<&str, usize>)
    ensures
        r is Ok <==> valid_utf8(v@),
        r matches Ok(s) ==> s@ == decode_utf8(v@),
        r matches Err(k) ==> is_valid_up_to(v@, k as int),
{
    match std::str::from_utf8(v) {
        Ok(s) => Ok(s),
        Err(e) => Err(e.valid_up_to()),
    }
}

/// Appends `s` with every `%` doubled.
fn push_escaped(out: &mut String, s: &str)
    ensures
        final(out)@ == old(out)@ + escape_text(s@),
{
    let ghost start = out@;
    proof {
        broadcast use vstd::string::axiom_spec_iter;
    }
    for c in it: s.chars()
        invariant
            it.seq() == s@,
            out@ == start + escape_text(s@.take(it.index() as int)),
    {
        let ghost i = it.index();
        assert(c == s@[i]);
        assert(s@.take(i + 1).drop_last() =~= s@.take(i));
        if c == '%' {
            push_char(out, '%');
            push_char(out, '%');
        } else {
            push_char(out, c);
        }
    }
    assert(s@.take(s@.len() as int) =~= s@);
}

/// Converts bytes that need not be valid UTF-8 into printable text, losing
/// nothing: valid runs are kept as text with `%` doubled, and each byte at
/// which decoding fails is written as `%` and its lowercase hex value.
pub fn to_string(bytes: &[u8]) -> (r: String)
    ensures
        r@ == escaped(bytes@),
{
    let mut result = String::new();
    let mut pos: usize = 0;
    assert(bytes@.skip(0) =~= bytes@);
    loop
        invariant
            pos <= bytes@.len(),
            result@ + escaped(bytes@.skip(pos as int)) == escaped(bytes@),
        decreases bytes@.len() - pos,
    {
        let x = &bytes[pos..bytes.len()];
        assert(x@ =~= bytes@.skip(pos as int));
        proof {
            lemma_valid_prefix(x@);
        }
        match utf8_text(x) {
            Ok(s) => {
                proof {
                    assert(x@.take(x@.len() as int) =~= x@);
                }
                push_escaped(&mut result, s);
                return result;
            },
            Err(k) => {
                proof {
                    lemma_valid_up_to_unique(x@, k as int);
                    assert(x@.take(x@.len() as int) =~= x@);
                }
                let (ok, bad) = x.split_at(k);
                match utf8_text(ok) {
                    Ok(t) => push_escaped(&mut result, t),
                    // the bytes before `k` are valid, so this arm is never taken
                    Err(_) => {},
                }
                push_char(&mut result, '%');
                push_hex_byte(&mut result, bad[0]);
                assert(x@.skip(k + 1) =~= bytes@.skip(pos + k + 1));
                pos = pos + k + 1;
            },
        }
    }
}

/// The number of escape tokens in an escaped text, read left to right: a `%`
/// followed by another `%` is a literal percent sign, any other `%` opens a
/// token.
pub open spec fn token_count(s: Seq<char>) -> nat
    decreases s.len(),
{
    if s.len() == 0 {
        0
    } else if s[0] == '%' && s.len() >= 2 && s[1] == '%' {
        token_count(s.skip(2))
    } else if s[0] == '%' {
        1 + token_count(s.skip(1))
    } else {
        token_count(s.skip(1))
    }
}

/// The number of bytes of `b` that lie outside every valid UTF-8 run.
pub open spec fn invalid_byte_count(b: Seq<u8>) -> nat
    decreases b.len(),
{
    let k = valid_prefix_len(b);
    if k >= b.len() {
        0
    } else {
        1 + invalid_byte_count(b.skip((k + 1) as int))
    }
}

/// The bytes of `b` that lie in its valid UTF-8 runs, in order.
pub open spec fn run_bytes(b: Seq<u8>) -> Seq<u8>
    decreases b.len(),
{
    let k = valid_prefix_len(b);
    if k >= b.len() {
        b
    } else {
        b.take(k as int) + run_bytes(b.skip((k + 1) as int))
    }
}

/// The text of the valid UTF-8 runs of `b`, before `%` is doubled.
pub open spec fn literal_text(b: Seq<u8>) -> Seq<char>
    decreases b.len(),
{
    let k = valid_prefix_len(b);
    if k >= b.len() {
        decode_utf8(b)
    } else {
        decode_utf8(b.take(k as int)) + literal_text(b.skip((k + 1) as int))
    }
}

/// Doubled percent signs open no token.
proof fn lemma_token_count_escape_text(cs: Seq<char>, t: Seq<char>)
    ensures
        token_count(escape_text(cs) + t) == token_count(t),
    decreases cs.len(),
{
    if cs.len() > 0 {
        let piece = if cs.last() == '%' {
            seq!['%', '%']
        } else {
            seq![cs.last()]
        };
        assert(escape_text(cs) + t =~= escape_text(cs.drop_last()) + (piece + t));
        lemma_token_count_escape_text(cs.drop_last(), piece + t);
        assert((piece + t).skip(piece.len() as int) =~= t);
    } else {
        assert(escape_text(cs) + t =~= t);
    }
}

/// No digit is a percent sign.
proof fn lemma_digit_not_percent(d: nat)
    requires
        d < 16,
    ensures
        digit_char(d) != '%',
{
    let digits = seq!['0', '1', '2', '3', '4', '5', '6', '7', '8', '9', 'a', 'b', 'c', 'd', 'e', 'f'];
    assert(forall|i: int| 0 <= i < 16 ==> #[trigger] digits[i] != '%');
}

/// A text that starts with a character other than `%` counts as its tail.
proof fn lemma_token_count_plain(c: char, t: Seq<char>)
    requires
        c != '%',
    ensures
        token_count(seq![c] + t) == token_count(t),
{
    assert((seq![c] + t).skip(1) =~= t);
}

/// An escape token counts once.
proof fn lemma_token_count_token(x: u8, t: Seq<char>)
    ensures
        token_count(escape_token(x) + t) == 1 + token_count(t),
{
    let s = escape_token(x) + t;
    lemma_digit_not_percent((x % 16) as nat);
    lemma_token_count_plain(digit_char((x % 16) as nat), t);
    if x < 16 {
        assert(s.skip(1) =~= seq![digit_char(x as nat)] + t);
    } else {
        lemma_digit_not_percent((x / 16) as nat);
        assert(hex((x / 16) as nat) == seq![digit_char((x / 16) as nat)]);
        let tail = seq![digit_char((x % 16) as nat)] + t;
        assert(s.skip(1) =~= seq![digit_char((x / 16) as nat)] + tail);
        lemma_token_count_plain(digit_char((x / 16) as nat), tail);
    }
}

/// Each byte outside the valid UTF-8 runs of `b` becomes exactly one escape
/// token of the escaped text, and nothing else does.
pub proof fn lemma_escape_tokens_count_invalid_bytes(b: Seq<u8>)
    ensures
        token_count(escaped(b)) == invalid_byte_count(b),
    decreases b.len(),
{
    let k = valid_prefix_len(b);
    if k >= b.len() {
        lemma_token_count_escape_text(decode_utf8(b), seq![]);
        assert(escape_text(decode_utf8(b)) + seq![] =~= escape_text(decode_utf8(b)));
        assert(token_count(Seq::<char>::empty()) == 0);
    } else {
        let rest = b.skip((k + 1) as int);
        lemma_escape_tokens_count_invalid_bytes(rest);
        let run = escape_text(decode_utf8(b.take(k as int)));
        assert(escaped(b) =~= run + (escape_token(b[k as int]) + escaped(rest)));
        lemma_token_count_escape_text(decode_utf8(b.take(k as int)), escape_token(b[k as int]) + escaped(rest));
        lemma_token_count_token(b[k as int], escaped(rest));
    }
}

/// UTF-8 encoding distributes over concatenation.
proof fn lemma_encode_utf8_concat(a: Seq<char>, c: Seq<char>)
    ensures
        encode_utf8(a + c) == encode_utf8(a) + encode_utf8(c),
    decreases a.len(),
{
    if a.len() == 0 {
        assert(a + c =~= c);
        assert(encode_utf8(a) + encode_utf8(c) =~= encode_utf8(c));
    } else {
        lemma_encode_utf8_concat(a.drop_first(), c);
        assert((a + c).drop_first() =~= a.drop_first() + c);
        assert(encode_utf8(a + c) =~= encode_utf8(a) + encode_utf8(c));
    }
}

/// The literal text of the escaped form loses no byte of the valid runs: it
/// re-encodes as valid UTF-8 to exactly the bytes of those runs, and these
/// together with the escaped bytes make up the whole input.
pub proof fn lemma_literal_runs_are_valid_text(b: Seq<u8>)
    ensures
        encode_utf8(literal_text(b)) == run_bytes(b),
        valid_utf8(run_bytes(b)),
        run_bytes(b).len() + invalid_byte_count(b) == b.len(),
    decreases b.len(),
{
    lemma_valid_prefix(b);
    let k = valid_prefix_len(b);
    if k >= b.len() {
        assert(b.take(b.len() as int) =~= b);
        decode_utf8_encode_utf8(b);
    } else {
        let rest = b.skip((k + 1) as int);
        lemma_literal_runs_are_valid_text(rest);
        let run = b.take(k as int);
        decode_utf8_encode_utf8(run);
        lemma_encode_utf8_concat(decode_utf8(run), literal_text(rest));
        valid_utf8_concat(run, run_bytes(rest));
    }
}

} // verus!
