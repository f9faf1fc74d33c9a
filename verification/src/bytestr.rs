//! Byte-string utilities.
//!
//! Rule names, paths and diagnostic messages are kept as raw byte strings,
//! because filenames in a scanned tree need not be valid text.  This module
//! provides the small verified toolkit the engine needs: equality,
//! concatenation, decimal rendering of counts, and the escaping used when a
//! raw filename is quoted inside a message.

use vstd::prelude::*;
use vstd::string::StrSliceExecFns;
use vstd::string::StringSliceAdditionalSpecFns;

verus! {

/// The bytes of a string literal, as a `Vec<u8>`.
pub fn lit(s: &str) -> (v: Vec<u8>)
    ensures
        v@ == s.spec_bytes(),
{
    s.as_bytes_vec()
}

/// A fresh copy of a byte string.
pub fn copy_bytes(s: &Vec<u8>) -> (v: Vec<u8>)
    ensures
        v@ == s@,
{
    let mut v: Vec<u8> = Vec::new();
    let mut i: usize = 0;
    while i < s.len()
        invariant
            i <= s.len(),
            v@ == s@.take(i as int),
        decreases s.len() - i,
    {
        v.push(s[i]);
        i = i + 1;
        proof {
            assert(v@ =~= s@.take(i as int));
        }
    }
    proof {
        assert(v@ =~= s@);
    }
    v
}

/// Append a byte string to `out`.
pub fn append_bytes(out: &mut Vec<u8>, s: &Vec<u8>)
    ensures
        final(out)@ == old(out)@ + s@,
{
    let mut i: usize = 0;
    while i < s.len()
        invariant
            i <= s.len(),
            out@ == old(out)@ + s@.take(i as int),
        decreases s.len() - i,
    {
        out.push(s[i]);
        i = i + 1;
        proof {
            assert(out@ =~= old(out)@ + s@.take(i as int));
        }
    }
    proof {
        assert(out@ =~= old(out)@ + s@);
    }
}

/// Whether two byte strings hold the same bytes.
pub fn bytes_eq(a: &Vec<u8>, b: &Vec<u8>) -> (r: bool)
    ensures
        r == (a@ == b@),
{
    if a.len() != b.len() {
        return false;
    }
    let mut i: usize = 0;
    while i < a.len()
        invariant
            i <= a.len(),
            a@.len() == b@.len(),
            forall|j: int| 0 <= j < i ==> a@[j] == b@[j],
        decreases a.len() - i,
    {
        if a[i] != b[i] {
            return false;
        }
        i = i + 1;
    }
    proof {
        assert(a@ =~= b@);
    }
    true
}

/// An uppercase hexadecimal digit for a value below 16.
pub open spec fn hex_digit(n: u8) -> u8 {
    if n < 10 {
        (n + 48) as u8
    } else {
        (n + 55) as u8
    }
}

/// The escape of one byte inside a quoted name: printable ASCII stands for
/// itself, the quote and the backslash get a backslash, and any other byte
/// becomes `\xHH`.
pub open spec fn escape_byte(b: u8) -> Seq<u8> {
    if b == 34 {
        seq![92u8, 34u8]
    } else if b == 92 {
        seq![92u8, 92u8]
    } else if 32 <= b <= 126 {
        seq![b]
    } else {
        seq![92u8, 120u8, hex_digit(b / 16), hex_digit(b % 16)]
    }
}

/// The escape of a whole byte string.
pub open spec fn escape_bytes(s: Seq<u8>) -> Seq<u8>
    decreases s.len(),
{
    if s.len() == 0 {
        Seq::empty()
    } else {
        escape_bytes(s.drop_last()) + escape_byte(s.last())
    }
}

/// Escape a byte string.
pub fn escape(s: &Vec<u8>) -> (v: Vec<u8>)
    ensures
        v@ == escape_bytes(s@),
{
    let mut v: Vec<u8> = Vec::new();
    let mut i: usize = 0;
    while i < s.len()
        invariant
            i <= s.len(),
            v@ == escape_bytes(s@.take(i as int)),
        decreases s.len() - i,
    {
        let b = s[i];
        if b == 34 {
            v.push(92);
            v.push(34);
        } else if b == 92 {
            v.push(92);
            v.push(92);
        } else if 32 <= b && b <= 126 {
            v.push(b);
        } else {
            v.push(92);
            v.push(120);
            let hi = b / 16;
            let lo = b % 16;
            v.push(if hi < 10 { hi + 48 } else { hi + 55 });
            v.push(if lo < 10 { lo + 48 } else { lo + 55 });
        }
        i = i + 1;
        proof {
            assert(s@.take(i as int).drop_last() =~= s@.take(i as int - 1));
            assert(s@.take(i as int).last() == s@[i as int - 1]);
            assert(v@ =~= escape_bytes(s@.take(i as int)));
        }
    }
    proof {
        assert(s@.take(i as int) =~= s@);
    }
    v
}

/// Whether a byte string displays as it is: printable ASCII with no quote
/// and no backslash.
pub open spec fn is_plain(s: Seq<u8>) -> bool {
    forall|i: int| 0 <= i < s.len() ==> (32 <= #[trigger] s[i] <= 126 && s[i] != 34 && s[i] != 92)
}

/// A byte string always quoted and escaped, as a raw name is shown in a
/// message.
pub open spec fn debug_quoted(s: Seq<u8>) -> Seq<u8> {
    seq![34u8] + escape_bytes(s) + seq![34u8]
}

/// Quote and escape a byte string.
pub fn debug_quote(s: &Vec<u8>) -> (v: Vec<u8>)
    ensures
        v@ == debug_quoted(s@),
{
    let mut v: Vec<u8> = Vec::new();
    v.push(34);
    let e = escape(s);
    append_bytes(&mut v, &e);
    v.push(34);
    proof {
        assert(v@ =~= debug_quoted(s@));
    }
    v
}

/// A path as shown in a message: plain paths stand as they are, anything
/// else is quoted and escaped.
pub open spec fn quoted_path(s: Seq<u8>) -> Seq<u8> {
    if is_plain(s) {
        s
    } else {
        debug_quoted(s)
    }
}

/// Show a path, quoting it only when needed.
pub fn quote_path(s: &Vec<u8>) -> (v: Vec<u8>)
    ensures
        v@ == quoted_path(s@),
{
    let mut i: usize = 0;
    while i < s.len()
        invariant
            i <= s.len(),
            forall|j: int|
                0 <= j < i ==> (32 <= #[trigger] s@[j] <= 126 && s@[j] != 34 && s@[j] != 92),
        decreases s.len() - i,
    {
        let b = s[i];
        if !(32 <= b && b <= 126) || b == 34 || b == 92 {
            return debug_quote(s);
        }
        i = i + 1;
    }
    copy_bytes(s)
}

/// Byte-wise lexicographic order.
pub open spec fn lex_le(a: Seq<u8>, b: Seq<u8>) -> bool
    decreases a.len(),
{
    if a.len() == 0 {
        true
    } else if b.len() == 0 {
        false
    } else if a[0] < b[0] {
        true
    } else if a[0] > b[0] {
        false
    } else {
        lex_le(a.drop_first(), b.drop_first())
    }
}

/// Compare two byte strings lexicographically.
pub fn lex_le_bytes(a: &Vec<u8>, b: &Vec<u8>) -> (r: bool)
    ensures
        r == lex_le(a@, b@),
{
    proof {
        assert(a@.skip(0) =~= a@);
        assert(b@.skip(0) =~= b@);
    }
    let mut i: usize = 0;
    while i < a.len() && i < b.len()
        invariant
            i <= a.len(),
            i <= b.len(),
            lex_le(a@, b@) == lex_le(a@.skip(i as int), b@.skip(i as int)),
        decreases a.len() - i,
    {
        proof {
            assert(a@.skip(i as int)[0] == a@[i as int]);
            assert(b@.skip(i as int)[0] == b@[i as int]);
            assert(a@.skip(i as int).drop_first() =~= a@.skip(i as int + 1));
            assert(b@.skip(i as int).drop_first() =~= b@.skip(i as int + 1));
        }
        if a[i] < b[i] {
            return true;
        }
        if a[i] > b[i] {
            return false;
        }
        i = i + 1;
    }
    proof {
        assert(i >= a.len() ==> a@.skip(i as int).len() == 0);
        assert(i >= b.len() ==> b@.skip(i as int).len() == 0);
    }
    i >= a.len()
}

/// Insertion into a sorted duplicate-free sequence of byte strings; an
/// already present string leaves the sequence unchanged.
pub open spec fn insert_sorted_spec(s: Seq<Seq<u8>>, x: Seq<u8>) -> Seq<Seq<u8>>
    decreases s.len(),
{
    if s.len() == 0 {
        seq![x]
    } else if x == s[0] {
        s
    } else if lex_le(x, s[0]) {
        seq![x] + s
    } else {
        seq![s[0]] + insert_sorted_spec(s.drop_first(), x)
    }
}

/// The views of a sequence of byte strings.
pub open spec fn seqs_view(s: Seq<Vec<u8>>) -> Seq<Seq<u8>> {
    Seq::new(s.len(), |i: int| s[i]@)
}

proof fn lemma_insert_sorted_skip(s: Seq<Seq<u8>>, x: Seq<u8>, i: int)
    requires
        0 <= i <= s.len(),
        forall|j: int| 0 <= j < i ==> (s[j] != x && !lex_le(x, #[trigger] s[j])),
    ensures
        insert_sorted_spec(s, x) == s.take(i) + insert_sorted_spec(s.skip(i), x),
    decreases i,
{
    if i == 0 {
        assert(s.skip(0) =~= s);
        assert(s.take(0) + insert_sorted_spec(s, x) =~= insert_sorted_spec(s, x));
    } else {
        lemma_insert_sorted_skip(s.drop_first(), x, i - 1);
        assert(s.drop_first().skip(i - 1) =~= s.skip(i));
        assert(seq![s[0]] + (s.drop_first().take(i - 1) + insert_sorted_spec(s.skip(i), x))
            =~= s.take(i) + insert_sorted_spec(s.skip(i), x));
    }
}

/// Insert a byte string into a sorted duplicate-free vector.
pub fn insert_sorted(v: &mut Vec<Vec<u8>>, x: &Vec<u8>)
    ensures
        seqs_view(final(v)@) == insert_sorted_spec(seqs_view(old(v)@), x@),
{
    let ghost sv = seqs_view(v@);
    let mut i: usize = 0;
    while i < v.len()
        invariant
            i <= v.len(),
            v@ == old(v)@,
            sv == seqs_view(v@),
            forall|j: int| 0 <= j < i ==> (sv[j] != x@ && !lex_le(x@, #[trigger] sv[j])),
        decreases v.len() - i,
    {
        if bytes_eq(&v[i], x) {
            proof {
                lemma_insert_sorted_skip(sv, x@, i as int);
                assert(sv.skip(i as int)[0] == sv[i as int]);
                assert(sv.take(i as int) + sv.skip(i as int) =~= sv);
            }
            return ;
        }
        if lex_le_bytes(x, &v[i]) {
            let c = copy_bytes(x);
            proof {
                lemma_insert_sorted_skip(sv, x@, i as int);
                assert(sv.skip(i as int)[0] == sv[i as int]);
            }
            v.insert(i, c);
            proof {
                assert(seqs_view(v@) =~= sv.take(i as int) + (seq![x@] + sv.skip(i as int)));
            }
            return ;
        }
        i = i + 1;
    }
    let c = copy_bytes(x);
    proof {
        lemma_insert_sorted_skip(sv, x@, i as int);
        assert(sv.skip(i as int).len() == 0);
    }
    v.push(c);
    proof {
        assert(seqs_view(v@) =~= sv.take(i as int) + seq![x@]);
    }
}

/// Whether a byte string is valid UTF-8.
///
/// Relies on str::from_utf8, which its documentation promises returns
/// `Ok` exactly when the slice holds valid UTF-8; `valid_utf8` is vstd's
/// own definition of that property.
#[verifier::external_body]
pub fn is_utf8(s: &Vec<u8>) -> (r: bool)
    ensures
        r == vstd::utf8::valid_utf8(s@),
{
    core::str::from_utf8(s.as_slice()).is_ok()
}

/// Decimal digits of `n`, most significant first, as ASCII bytes.
pub open spec fn dec_digits(n: nat) -> Seq<u8>
    decreases n,
{
    if n < 10 {
        seq![(n + 48) as u8]
    } else {
        dec_digits(n / 10).push((n % 10 + 48) as u8)
    }
}

/// Render a count in decimal.
pub fn format_usize(n: usize) -> (v: Vec<u8>)
    ensures
        v@ == dec_digits(n as nat),
    decreases n,
{
    if n < 10 {
        let mut v: Vec<u8> = Vec::new();
        v.push((n as u8) + 48);
        proof {
            assert(v@ =~= dec_digits(n as nat));
        }
        v
    } else {
        let mut v = format_usize(n / 10);
        v.push(((n % 10) as u8) + 48);
        proof {
            assert(v@ =~= dec_digits(n as nat));
        }
        v
    }
}

} // verus!
