//! The JSON pieces of the trace document: string escaping and decimal
//! numbers, on bytes.

use vstd::prelude::*;
use vstd::string::StringSliceAdditionalSpecFns;

verus! {

/// The byte `\`.
pub const BACKSLASH: u8 = 92;

/// The byte `"`.
pub const QUOTE: u8 = 34;

/// One byte as it stands inside a JSON string: `\` and `"` are preceded by a
/// backslash, every other byte stands for itself.
pub open spec fn escape_byte(b: u8) -> Seq<u8> {
    if b == BACKSLASH || b == QUOTE {
        seq![BACKSLASH, b]
    } else {
        seq![b]
    }
}

/// `s` as it stands inside a JSON string.
pub open spec fn escape_json(s: Seq<u8>) -> Seq<u8>
    decreases s.len(),
{
    if s.len() == 0 {
        Seq::empty()
    } else {
        escape_json(s.drop_last()) + escape_byte(s.last())
    }
}

/// Whether `s` holds neither `\` nor `"`.
pub open spec fn is_plain(s: Seq<u8>) -> bool {
    forall|i: int| 0 <= i < s.len() ==> s[i] != BACKSLASH && s[i] != QUOTE
}

/// The decimal digits of `n`, most significant first, with no leading zero.
pub open spec fn decimal(n: nat) -> Seq<u8>
    decreases n,
{
    if n < 10 {
        seq![(48 + n) as u8]
    } else {
        decimal(n / 10) + seq![(48 + n % 10) as u8]
    }
}

/// `i` in decimal, with a leading `-` when it is negative.
pub open spec fn signed_decimal(i: int) -> Seq<u8> {
    if i < 0 {
        seq![45u8] + decimal((-i) as nat)
    } else {
        decimal(i as nat)
    }
}

/// Reads the body of a JSON string from the front of `t` up to its closing
/// quote, undoing the escapes `\\` and `\"`: the decoded bytes and the length
/// of the body. `None` when no closing quote comes, or another escape does.
pub open spec fn read_json_string(t: Seq<u8>) -> Option<(Seq<u8>, nat)>
    decreases t.len(),
{
    if t.len() == 0 {
        None
    } else if t[0] == QUOTE {
        Some((Seq::empty(), 0))
    } else if t[0] == BACKSLASH {
        if t.len() >= 2 && (t[1] == BACKSLASH || t[1] == QUOTE) {
            match read_json_string(t.subrange(2, t.len() as int)) {
                Some((d, n)) => Some((seq![t[1]] + d, n + 2)),
                None => None,
            }
        } else {
            None
        }
    } else {
        match read_json_string(t.subrange(1, t.len() as int)) {
            Some((d, n)) => Some((seq![t[0]] + d, n + 1)),
            None => None,
        }
    }
}

/// Escaping distributes over concatenation.
pub proof fn lemma_escape_concat(a: Seq<u8>, b: Seq<u8>)
    ensures
        escape_json(a + b) == escape_json(a) + escape_json(b),
    decreases b.len(),
{
    if b.len() == 0 {
        assert(a + b =~= a);
        assert(escape_json(a) + escape_json(b) =~= escape_json(a));
    } else {
        lemma_escape_concat(a, b.drop_last());
        assert((a + b).drop_last() =~= a + b.drop_last());
        assert((a + b).last() == b.last());
        assert(escape_json(a + b) =~= escape_json(a) + escape_json(b));
    }
}

/// Text with neither `\` nor `"` is its own escape.
pub proof fn lemma_escape_plain(s: Seq<u8>)
    requires
        is_plain(s),
    ensures
        escape_json(s) == s,
    decreases s.len(),
{
    if s.len() > 0 {
        assert(is_plain(s.drop_last()));
        lemma_escape_plain(s.drop_last());
        assert(s.drop_last().push(s.last()) =~= s);
        assert(escape_json(s) =~= s);
    }
}

/// Reading back an escaped string, closed by a quote, gives the original
/// bytes, and the body ends exactly where the escaped text does, whatever
/// follows the closing quote.
pub proof fn lemma_escape_round_trip(s: Seq<u8>, rest: Seq<u8>)
    ensures
        read_json_string(escape_json(s) + seq![QUOTE] + rest) == Some(
            (s, escape_json(s).len()),
        ),
    decreases s.len(),
{
    let t = escape_json(s) + seq![QUOTE] + rest;
    if s.len() == 0 {
        assert(escape_json(s) =~= Seq::<u8>::empty());
        assert(t[0] == QUOTE);
        assert(s =~= Seq::<u8>::empty());
    } else {
        let tail = s.drop_first();
        assert(s =~= seq![s[0]] + tail);
        lemma_escape_concat(seq![s[0]], tail);
        assert(seq![s[0]].drop_last() =~= Seq::<u8>::empty());
        assert(escape_json(Seq::<u8>::empty()) =~= Seq::<u8>::empty());
        assert(escape_json(seq![s[0]]) == escape_json(seq![s[0]].drop_last()) + escape_byte(
            seq![s[0]].last(),
        ));
        assert(escape_json(seq![s[0]]) =~= escape_byte(s[0]));
        lemma_escape_round_trip(tail, rest);
        let k = escape_byte(s[0]).len() as int;
        assert(t =~= escape_byte(s[0]) + (escape_json(tail) + seq![QUOTE] + rest));
        assert(t.subrange(k, t.len() as int) =~= escape_json(tail) + seq![QUOTE] + rest);
        assert(seq![s[0]] + tail =~= s);
    }
}

/// Appends `b`, escaped, to `out`. Text without `\` or `"` is copied as it
/// is in one piece.
pub fn clean_json_str(b: &[u8], out: &mut Vec<u8>)
    ensures
        final(out)@ == old(out)@ + escape_json(b@),
{
    let mut i: usize = 0;
    let mut plain = true;
    while i < b.len()
        invariant
            i <= b@.len(),
            plain == is_plain(b@.take(i as int)),
        decreases b@.len() - i,
    {
        assert(b@.take(i + 1) =~= b@.take(i as int).push(b@[i as int]));
        if b[i] == BACKSLASH || b[i] == QUOTE {
            plain = false;
            assert(b@.take(i + 1)[i as int] == b@[i as int]);
        }
        i = i + 1;
    }
    assert(b@.take(b@.len() as int) =~= b@);
    if plain {
        proof {
            lemma_escape_plain(b@);
        }
        out.extend_from_slice(b);
        assert(final(out)@ =~= old(out)@ + b@);
        return;
    }
    let mut j: usize = 0;
    while j < b.len()
        invariant
            j <= b@.len(),
            out@ == old(out)@ + escape_json(b@.take(j as int)),
        decreases b@.len() - j,
    {
        let c = b[j];
        if c == BACKSLASH || c == QUOTE {
            out.push(BACKSLASH);
        }
        out.push(c);
        assert(b@.take(j + 1).drop_last() =~= b@.take(j as int));
        assert(out@ =~= old(out)@ + escape_json(b@.take(j + 1)));
        j = j + 1;
    }
}

/// Appends the UTF-8 bytes of `s` to `out`, as they are.
pub fn push_str(out: &mut Vec<u8>, s: &str)
    ensures
        final(out)@ == old(out)@ + s.spec_bytes(),
{
    let b = s.as_bytes();
    out.extend_from_slice(b);
    assert(final(out)@ =~= old(out)@ + s.spec_bytes());
}

/// Appends the decimal digits of `n` to `out`.
pub fn push_decimal(out: &mut Vec<u8>, n: u64)
    ensures
        final(out)@ == old(out)@ + decimal(n as nat),
    decreases n,
{
    if n >= 10 {
        push_decimal(out, n / 10);
    }
    out.push(48 + (n % 10) as u8);
    assert(final(out)@ =~= old(out)@ + decimal(n as nat));
}

/// Appends `i` in decimal to `out`, with a leading `-` when it is negative.
pub fn push_signed_decimal(out: &mut Vec<u8>, i: i64)
    ensures
        final(out)@ == old(out)@ + signed_decimal(i as int),
{
    if i < 0 {
        out.push(45);
        let magnitude: u64 = (0i128 - i as i128) as u64;
        push_decimal(out, magnitude);
        assert(final(out)@ =~= old(out)@ + signed_decimal(i as int));
    } else {
        push_decimal(out, i as u64);
    }
}

} // verus!
