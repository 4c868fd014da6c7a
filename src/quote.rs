use vstd::prelude::*;
use vstd::utf8::encode_utf8;

verus! {

/// What one byte of a value becomes inside single quotes: itself, or for a
/// single quote the sequence `'"'"'`, which closes the quotes, gives a
/// double-quoted `'` and opens them again.
pub open spec fn quoted_byte(b: u8) -> Seq<u8> {
    if b == 0x27u8 {
        seq![0x27u8, 0x22u8, 0x27u8, 0x22u8, 0x27u8]
    } else {
        seq![b]
    }
}

/// The bytes between the outer single quotes.
pub open spec fn quoted_body(s: Seq<u8>) -> Seq<u8>
    decreases s.len(),
{
    if s.len() == 0 {
        Seq::empty()
    } else {
        quoted_byte(s[0]) + quoted_body(s.drop_first())
    }
}

/// The single-quoted shell word for a byte string: `'`, the body, `'`.
pub open spec fn sh_single_quoted(s: Seq<u8>) -> Seq<u8> {
    seq![0x27u8] + quoted_body(s) + seq![0x27u8]
}

/// Bytes that need no quoting in a POSIX shell word: ASCII letters and
/// digits and `, . / _ - : @ +`.
pub open spec fn is_inert(b: u8) -> bool {
    (0x61 <= b <= 0x7a) || (0x41 <= b <= 0x5a) || (0x30 <= b <= 0x39) || b == 0x2c || b == 0x2e
        || b == 0x2f || b == 0x5f || b == 0x2d || b == 0x3a || b == 0x40 || b == 0x2b
}

/// The value a POSIX shell gives to a word built from unquoted literal bytes,
/// backslash escapes, single-quoted and double-quoted sections; `None` for a
/// word that holds anything else (an expansion, an operator, a blank, an
/// unterminated quote).
pub open spec fn sh_word_value(q: Seq<u8>) -> Option<Seq<u8>>
    decreases q.len(), 1int,
{
    if q.len() == 0 {
        Some(Seq::empty())
    } else if q[0] == 0x27u8 {
        sh_single_quoted_value(q.drop_first())
    } else if q[0] == 0x22u8 {
        sh_double_quoted_value(q.drop_first())
    } else if q[0] == 0x5cu8 {
        if q.len() >= 2 && q[1] != 0x0au8 {
            match sh_word_value(q.subrange(2, q.len() as int)) {
                Some(rest) => Some(seq![q[1]] + rest),
                None => None,
            }
        } else {
            None
        }
    } else if is_inert(q[0]) || q[0] >= 0x80u8 {
        match sh_word_value(q.drop_first()) {
            Some(rest) => Some(seq![q[0]] + rest),
            None => None,
        }
    } else {
        None
    }
}

/// The value of the rest of a word that starts inside single quotes: every
/// byte is literal up to the closing quote.
pub open spec fn sh_single_quoted_value(q: Seq<u8>) -> Option<Seq<u8>>
    decreases q.len(), 0int,
{
    if q.len() == 0 {
        None
    } else if q[0] == 0x27u8 {
        sh_word_value(q.drop_first())
    } else {
        match sh_single_quoted_value(q.drop_first()) {
            Some(rest) => Some(seq![q[0]] + rest),
            None => None,
        }
    }
}

/// The value of the rest of a word that starts inside double quotes: bytes
/// are literal up to the closing quote, but `$` and a backquote start an
/// expansion, and a backslash escapes `$`, a backquote, `"`, `\` or a line
/// break and is literal before anything else.
pub open spec fn sh_double_quoted_value(q: Seq<u8>) -> Option<Seq<u8>>
    decreases q.len(), 0int,
{
    if q.len() == 0 {
        None
    } else if q[0] == 0x22u8 {
        sh_word_value(q.drop_first())
    } else if q[0] == 0x24u8 || q[0] == 0x60u8 {
        None
    } else if q[0] == 0x5cu8 && q.len() >= 2 && q[1] == 0x0au8 {
        sh_double_quoted_value(q.subrange(2, q.len() as int))
    } else if q[0] == 0x5cu8 && q.len() >= 2 && (q[1] == 0x24u8 || q[1] == 0x60u8 || q[1]
        == 0x22u8 || q[1] == 0x5cu8) {
        match sh_double_quoted_value(q.subrange(2, q.len() as int)) {
            Some(rest) => Some(seq![q[1]] + rest),
            None => None,
        }
    } else {
        match sh_double_quoted_value(q.drop_first()) {
            Some(rest) => Some(seq![q[0]] + rest),
            None => None,
        }
    }
}

proof fn lemma_body_reads_back(s: Seq<u8>, t: Seq<u8>)
    ensures
        sh_single_quoted_value(quoted_body(s) + seq![0x27u8] + t) == match sh_word_value(t) {
            Some(r) => Some(s + r),
            None => None::<Seq<u8>>,
        },
    decreases s.len(),
{
    let q = quoted_body(s) + seq![0x27u8] + t;
    if s.len() == 0 {
        assert(quoted_body(s) =~= Seq::<u8>::empty());
        assert(q.drop_first() =~= t);
        match sh_word_value(t) {
            Some(r) => assert(s + r =~= r),
            None => {},
        }
    } else {
        let rest = s.drop_first();
        let x = quoted_body(rest) + seq![0x27u8] + t;
        lemma_body_reads_back(rest, t);
        assert(quoted_body(s) == quoted_byte(s[0]) + quoted_body(rest));
        if s[0] == 0x27u8 {
            // '"'"' then the rest: close, double-quoted ', reopen.
            assert(q =~= seq![0x27u8, 0x22u8, 0x27u8, 0x22u8, 0x27u8] + x);
            let q1 = q.drop_first();
            assert(q1 =~= seq![0x22u8, 0x27u8, 0x22u8, 0x27u8] + x);
            let q2 = q1.drop_first();
            assert(q2 =~= seq![0x27u8, 0x22u8, 0x27u8] + x);
            let q3 = q2.drop_first();
            assert(q3 =~= seq![0x22u8, 0x27u8] + x);
            let q4 = q3.drop_first();
            assert(q4 =~= seq![0x27u8] + x);
            assert(q4.drop_first() =~= x);
            assert(sh_double_quoted_value(q3) == sh_word_value(q4));
            assert(sh_word_value(q4) == sh_single_quoted_value(x));
            assert(q2[0] == 0x27u8);
            assert(q2.drop_first() =~= q3);
            assert(sh_double_quoted_value(q2) == match sh_double_quoted_value(q3) {
                Some(r) => Some(seq![0x27u8] + r),
                None => None::<Seq<u8>>,
            });
            assert(sh_single_quoted_value(q) == sh_word_value(q1));
            assert(sh_word_value(q1) == sh_double_quoted_value(q2));
            match sh_word_value(t) {
                Some(r) => {
                    assert(seq![0x27u8] + (rest + r) =~= s + r);
                },
                None => {},
            }
        } else {
            assert(q =~= seq![s[0]] + x);
            assert(q.drop_first() =~= x);
            assert(q[0] == s[0]);
            match sh_word_value(t) {
                Some(r) => {
                    assert(seq![s[0]] + (rest + r) =~= s + r);
                },
                None => {},
            }
        }
    }
}

/// Every byte string, single-quoted, reads back in a POSIX shell as exactly
/// that string.
pub proof fn lemma_quote_round_trip(s: Seq<u8>)
    ensures
        sh_word_value(sh_single_quoted(s)) == Some(s),
{
    let e = Seq::<u8>::empty();
    lemma_body_reads_back(s, e);
    assert(sh_single_quoted(s).drop_first() =~= quoted_body(s) + seq![0x27u8] + e);
    assert(s + e =~= s);
}

proof fn lemma_body_push(s: Seq<u8>, b: u8)
    ensures
        quoted_body(s.push(b)) == quoted_body(s) + quoted_byte(b),
    decreases s.len(),
{
    if s.len() == 0 {
        assert(s.push(b).drop_first() =~= Seq::<u8>::empty());
        assert(quoted_body(Seq::<u8>::empty()) =~= Seq::<u8>::empty());
        assert(quoted_body(s) =~= Seq::<u8>::empty());
        assert(quoted_byte(b) + Seq::<u8>::empty() =~= quoted_byte(b));
    } else {
        assert(s.push(b).drop_first() =~= s.drop_first().push(b));
        lemma_body_push(s.drop_first(), b);
        assert(quoted_byte(s[0]) + (quoted_body(s.drop_first()) + quoted_byte(b)) =~= (quoted_byte(
            s[0],
        ) + quoted_body(s.drop_first())) + quoted_byte(b));
    }
}

/// Renders the UTF-8 bytes of `value` as one single-quoted shell word, which
/// a POSIX shell reads back as exactly those bytes.
pub fn quote_value(value: &str) -> (r: Vec<u8>)
    ensures
        r@ == sh_single_quoted(encode_utf8(value@)),
        sh_word_value(r@) == Some(encode_utf8(value@)),
{
    let bytes = value.as_bytes();
    let mut out: Vec<u8> = Vec::new();
    out.push(0x27u8);
    let mut i: usize = 0;
    while i < bytes.len()
        invariant
            i <= bytes@.len(),
            out@ == seq![0x27u8] + quoted_body(bytes@.subrange(0, i as int)),
        decreases bytes@.len() - i,
    {
        let b = bytes[i];
        let ghost before = out@;
        if b == 0x27u8 {
            out.push(0x27u8);
            out.push(0x22u8);
            out.push(0x27u8);
            out.push(0x22u8);
            out.push(0x27u8);
        } else {
            out.push(b);
        }
        proof {
            assert(out@ =~= before + quoted_byte(b));
            assert(bytes@.subrange(0, i as int + 1) =~= bytes@.subrange(0, i as int).push(b));
            lemma_body_push(bytes@.subrange(0, i as int), b);
        }
        i += 1;
    }
    out.push(0x27u8);
    proof {
        assert(bytes@.subrange(0, bytes@.len() as int) =~= bytes@);
        assert(out@ =~= sh_single_quoted(bytes@));
        lemma_quote_round_trip(bytes@);
    }
    out
}

} // verus!
