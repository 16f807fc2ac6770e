//! Splitting text into plain runs and URL runs by byte spans, and putting it
//! back together with only the plain runs mangled.

use vstd::prelude::*;
use vstd::string::StringExecFns;
use vstd::string::StringSliceAdditionalSpecFns;
use vstd::utf8::*;

verus! {

broadcast use vstd::utf8::group_utf8_lib;

/// What the uwu mangler makes of a text.
pub uninterp spec fn uwu_of(s: Seq<char>) -> Seq<char>;

/// Relies on `uwuifier::uwuify_str_sse`: it runs a fixed-seed transform, so the
/// result depends on the text alone, and on empty text its passes do no work and
/// return empty text. (The crate panics on a processor without SSE4.1.)
#[verifier::external_body]
fn mangle(s: &str) -> (r: String)
    ensures
        r@ == uwu_of(s@),
        s@.len() == 0 ==> r@.len() == 0,
{
    uwuifier::uwuify_str_sse(s)
}

/// Spans over the bytes `b` that are in bounds, fall on character boundaries,
/// and come in order without overlapping.
pub open spec fn spans_valid(b: Seq<u8>, sp: Seq<(usize, usize)>) -> bool {
    &&& forall|k: int|
        0 <= k < sp.len() ==> #[trigger] sp[k].0 <= sp[k].1 <= b.len() && is_char_boundary(
            b,
            sp[k].0 as int,
        ) && is_char_boundary(b, sp[k].1 as int)
    &&& forall|k: int| 0 < k < sp.len() ==> #[trigger] sp[k - 1].1 <= sp[k].0
}

/// Byte offset where plain run `k` starts.
pub open spec fn run_start(sp: Seq<(usize, usize)>, k: int) -> int {
    if k == 0 {
        0
    } else {
        sp[k - 1].1 as int
    }
}

/// Byte offset where plain run `k` ends.
pub open spec fn run_end(b: Seq<u8>, sp: Seq<(usize, usize)>, k: int) -> int {
    if k == sp.len() {
        b.len() as int
    } else {
        sp[k].0 as int
    }
}

/// The bytes of plain run `k`: what lies between URL `k - 1` and URL `k`.
pub open spec fn plain_bytes(b: Seq<u8>, sp: Seq<(usize, usize)>, k: int) -> Seq<u8> {
    b.subrange(run_start(sp, k), run_end(b, sp, k))
}

/// The bytes of URL run `k`.
pub open spec fn url_bytes(b: Seq<u8>, sp: Seq<(usize, usize)>, k: int) -> Seq<u8> {
    b.subrange(sp[k].0 as int, sp[k].1 as int)
}

/// The first `n` plain runs and the first `n` URL runs, alternating.
pub open spec fn interleaved(b: Seq<u8>, sp: Seq<(usize, usize)>, n: nat) -> Seq<u8>
    decreases n,
{
    if n == 0 {
        Seq::empty()
    } else {
        interleaved(b, sp, (n - 1) as nat) + plain_bytes(b, sp, n - 1) + url_bytes(b, sp, n - 1)
    }
}

/// All runs of the text, plain and URL, in order.
pub open spec fn reassembled(b: Seq<u8>, sp: Seq<(usize, usize)>) -> Seq<u8> {
    interleaved(b, sp, sp.len()) + plain_bytes(b, sp, sp.len() as int)
}

/// The first `n` plain runs mangled, each followed by its URL run verbatim.
pub open spec fn merged(b: Seq<u8>, sp: Seq<(usize, usize)>, n: nat) -> Seq<char>
    decreases n,
{
    if n == 0 {
        Seq::empty()
    } else {
        merged(b, sp, (n - 1) as nat) + uwu_of(decode_utf8(plain_bytes(b, sp, n - 1)))
            + decode_utf8(url_bytes(b, sp, n - 1))
    }
}

/// The text with every plain run mangled on its own and every URL run kept.
pub open spec fn transformed(b: Seq<u8>, sp: Seq<(usize, usize)>) -> Seq<char> {
    merged(b, sp, sp.len()) + uwu_of(decode_utf8(plain_bytes(b, sp, sp.len() as int)))
}

/// A character boundary of `b` at or after `lo` is one of `b`'s tail from `lo`.
proof fn lemma_boundary_in_tail(b: Seq<u8>, lo: int, i: int)
    requires
        valid_utf8(b),
        0 <= lo <= i <= b.len(),
        is_char_boundary(b, lo),
        is_char_boundary(b, i),
    ensures
        valid_utf8(b.subrange(lo, b.len() as int)),
        is_char_boundary(b.subrange(lo, b.len() as int), i - lo),
{
    let t = b.subrange(lo, b.len() as int);
    assert(valid_utf8(t));
    if i < b.len() {
        assert(t[i - lo] == b[i]);
        assert(is_char_boundary(t, i - lo) <==> !is_continuation_byte(t[i - lo]));
        assert(is_char_boundary(b, i) <==> !is_continuation_byte(b[i]));
    } else {
        assert(is_char_boundary(t, t.len() as int));
    }
}

/// The part of `text` between two character boundaries, given as byte offsets.
fn slice(text: &str, lo: usize, hi: usize) -> (r: &str)
    requires
        lo <= hi <= text.spec_bytes().len(),
        is_char_boundary(text.spec_bytes(), lo as int),
        is_char_boundary(text.spec_bytes(), hi as int),
    ensures
        r.spec_bytes() == text.spec_bytes().subrange(lo as int, hi as int),
        r@ == decode_utf8(text.spec_bytes().subrange(lo as int, hi as int)),
{
    let b = Ghost(text.spec_bytes());
    proof {
        lemma_boundary_in_tail(b@, lo as int, hi as int);
    }
    let (_, tail) = text.split_at(lo);
    let (mid, _) = tail.split_at(hi - lo);
    assert(mid.spec_bytes() =~= b@.subrange(lo as int, hi as int));
    proof {
        assert(decode_utf8(encode_utf8(mid@)) == mid@);
    }
    mid
}

/// Mangles every plain run of `text` on its own and keeps every URL run as it
/// stands, given the URL runs as ordered byte spans.
pub fn transform_segments(text: &str, spans: &Vec<(usize, usize)>) -> (r: String)
    requires
        spans_valid(text.spec_bytes(), spans@),
    ensures
        r@ == transformed(text.spec_bytes(), spans@),
        text@.len() == 0 ==> r@.len() == 0,
{
    let b = Ghost(text.spec_bytes());
    proof {
        if text@.len() == 0 {
            assert(encode_utf8(text@) =~= Seq::<u8>::empty());
        }
    }
    let mut out = String::new();
    let mut pos: usize = 0;
    let mut k: usize = 0;
    while k < spans.len()
        invariant
            b@ == text.spec_bytes(),
            spans_valid(b@, spans@),
            k <= spans.len(),
            pos as int == run_start(spans@, k as int),
            pos <= b@.len(),
            is_char_boundary(b@, pos as int),
            out@ == merged(b@, spans@, k as nat),
            b@.len() == 0 ==> out@.len() == 0,
        decreases spans.len() - k,
    {
        let (s, e) = spans[k];
        let plain = slice(text, pos, s);
        let m = mangle(plain);
        out.append(m.as_str());
        let url = slice(text, s, e);
        out.append(url);
        pos = e;
        k = k + 1;
    }
    let n = text.as_bytes().len();
    assert(is_char_boundary(b@, b@.len() as int));
    let rest = slice(text, pos, n);
    assert(text.spec_bytes().subrange(pos as int, n as int) == plain_bytes(
        b@,
        spans@,
        spans@.len() as int,
    ));
    let m = mangle(rest);
    out.append(m.as_str());
    out
}

/// Where URL run `k` ends up in the output, counted in characters.
pub open spec fn url_position(b: Seq<u8>, sp: Seq<(usize, usize)>, k: int) -> int {
    merged(b, sp, k as nat).len() + uwu_of(decode_utf8(plain_bytes(b, sp, k))).len() as int
}

/// The characters of URL run `k`.
pub open spec fn url_chars(b: Seq<u8>, sp: Seq<(usize, usize)>, k: int) -> Seq<char> {
    decode_utf8(url_bytes(b, sp, k))
}

proof fn lemma_merged_prefix(b: Seq<u8>, sp: Seq<(usize, usize)>, k: nat, n: nat)
    requires
        k <= n,
    ensures
        merged(b, sp, k).len() <= merged(b, sp, n).len(),
        merged(b, sp, n).subrange(0, merged(b, sp, k).len() as int) == merged(b, sp, k),
    decreases n,
{
    if k < n {
        lemma_merged_prefix(b, sp, k, (n - 1) as nat);
        let m = merged(b, sp, (n - 1) as nat);
        let tail = uwu_of(decode_utf8(plain_bytes(b, sp, n - 1))) + decode_utf8(
            url_bytes(b, sp, n - 1),
        );
        assert(merged(b, sp, n) == m + tail);
        assert((m + tail).subrange(0, merged(b, sp, k).len() as int) =~= m.subrange(
            0,
            merged(b, sp, k).len() as int,
        ));
    } else {
        assert(merged(b, sp, n).subrange(0, merged(b, sp, k).len() as int) =~= merged(b, sp, k));
    }
}

/// Text without URLs is mangled as one whole run.
pub proof fn law_no_urls_mangles_whole(text: Seq<char>)
    ensures
        transformed(encode_utf8(text), Seq::empty()) == uwu_of(text),
{
    let b = encode_utf8(text);
    assert(plain_bytes(b, Seq::empty(), 0) =~= b);
    assert(merged(b, Seq::empty(), 0) + uwu_of(text) =~= uwu_of(text));
}

/// Every URL run comes out verbatim, in the order of the input: URL `k` stands at
/// `url_position(k)` of the output, and URL `k + 1` stands after it.
pub proof fn law_urls_kept_in_order(text: Seq<char>, sp: Seq<(usize, usize)>, k: int)
    requires
        spans_valid(encode_utf8(text), sp),
        0 <= k < sp.len(),
    ensures
        ({
            let b = encode_utf8(text);
            let out = transformed(b, sp);
            let p = url_position(b, sp, k);
            &&& 0 <= p
            &&& p + url_chars(b, sp, k).len() <= out.len()
            &&& out.subrange(p, p + url_chars(b, sp, k).len()) == url_chars(b, sp, k)
            &&& k + 1 < sp.len() ==> p + url_chars(b, sp, k).len() <= url_position(b, sp, k + 1)
        }),
{
    let b = encode_utf8(text);
    let out = transformed(b, sp);
    let p = url_position(b, sp, k);
    let u = url_chars(b, sp, k);
    let mk1 = merged(b, sp, (k + 1) as nat);
    assert(mk1 == merged(b, sp, k as nat) + uwu_of(decode_utf8(plain_bytes(b, sp, k))) + u);
    lemma_merged_prefix(b, sp, (k + 1) as nat, sp.len());
    let mn = merged(b, sp, sp.len());
    assert(out == mn + uwu_of(decode_utf8(plain_bytes(b, sp, sp.len() as int))));
    assert(out.subrange(0, mk1.len() as int) =~= mn.subrange(0, mk1.len() as int));
    assert(out.subrange(p, p + u.len()) =~= mk1.subrange(p, p + u.len()));
    assert(mk1.subrange(p, p + u.len()) =~= u);
}

proof fn lemma_interleaved_prefix(b: Seq<u8>, sp: Seq<(usize, usize)>, n: nat)
    requires
        spans_valid(b, sp),
        n <= sp.len(),
    ensures
        interleaved(b, sp, n) == b.subrange(0, run_start(sp, n as int)),
    decreases n,
{
    if n == 0 {
        assert(b.subrange(0, 0) =~= Seq::<u8>::empty());
    } else {
        lemma_interleaved_prefix(b, sp, (n - 1) as nat);
        let k = n - 1;
        if k > 0 {
            assert(sp[k - 1].1 <= sp[k].0);
        }
        assert(b.subrange(0, run_start(sp, k)) + plain_bytes(b, sp, k) + url_bytes(b, sp, k)
            =~= b.subrange(0, run_start(sp, n as int)));
    }
}

/// Plain runs and URL runs together cover the text exactly once, in order:
/// putting them back side by side gives the input bytes.
pub proof fn law_runs_cover_text(text: Seq<char>, sp: Seq<(usize, usize)>)
    requires
        spans_valid(encode_utf8(text), sp),
    ensures
        reassembled(encode_utf8(text), sp) == encode_utf8(text),
{
    let b = encode_utf8(text);
    lemma_interleaved_prefix(b, sp, sp.len());
    if sp.len() > 0 {
        assert(sp[sp.len() - 1].1 <= b.len());
    }
    assert(b.subrange(0, run_start(sp, sp.len() as int)) + plain_bytes(b, sp, sp.len() as int)
        =~= b);
}

/// The first `n` plain runs and URL runs as characters, alternating, with
/// nothing mangled.
pub open spec fn kept(b: Seq<u8>, sp: Seq<(usize, usize)>, n: nat) -> Seq<char>
    decreases n,
{
    if n == 0 {
        Seq::empty()
    } else {
        kept(b, sp, (n - 1) as nat) + decode_utf8(plain_bytes(b, sp, n - 1)) + decode_utf8(
            url_bytes(b, sp, n - 1),
        )
    }
}

proof fn lemma_encode_concat(x: Seq<char>, y: Seq<char>)
    ensures
        encode_utf8(x + y) == encode_utf8(x) + encode_utf8(y),
    decreases x.len(),
{
    if x.len() == 0 {
        assert(x + y =~= y);
        assert(encode_utf8(x) =~= Seq::<u8>::empty());
        assert(Seq::<u8>::empty() + encode_utf8(y) =~= encode_utf8(y));
    } else {
        lemma_encode_concat(x.drop_first(), y);
        assert((x + y).drop_first() =~= x.drop_first() + y);
        assert(encode_utf8(x + y) =~= encode_scalar(x[0] as u32) + encode_utf8(x.drop_first() + y));
        assert(encode_utf8(x) =~= encode_scalar(x[0] as u32) + encode_utf8(x.drop_first()));
    }
}

proof fn lemma_decode_concat(x: Seq<u8>, y: Seq<u8>)
    requires
        valid_utf8(x),
        valid_utf8(y),
    ensures
        decode_utf8(x + y) == decode_utf8(x) + decode_utf8(y),
{
    let p = decode_utf8(x);
    let q = decode_utf8(y);
    lemma_encode_concat(p, q);
    assert(encode_utf8(p) == x);
    assert(encode_utf8(q) == y);
    assert(decode_utf8(encode_utf8(p + q)) == p + q);
}

proof fn lemma_piece_valid(b: Seq<u8>, lo: int, hi: int)
    requires
        valid_utf8(b),
        0 <= lo <= hi <= b.len(),
        is_char_boundary(b, lo),
        is_char_boundary(b, hi),
    ensures
        valid_utf8(b.subrange(lo, hi)),
{
    lemma_boundary_in_tail(b, lo, hi);
    let t = b.subrange(lo, b.len() as int);
    assert(valid_utf8(t.subrange(0, hi - lo)));
    assert(t.subrange(0, hi - lo) =~= b.subrange(lo, hi));
}

proof fn lemma_kept_prefix(b: Seq<u8>, sp: Seq<(usize, usize)>, n: nat)
    requires
        valid_utf8(b),
        spans_valid(b, sp),
        n <= sp.len(),
    ensures
        kept(b, sp, n) == decode_utf8(b.subrange(0, run_start(sp, n as int))),
    decreases n,
{
    if n == 0 {
        assert(b.subrange(0, 0) =~= Seq::<u8>::empty());
    } else {
        let k = n - 1;
        lemma_kept_prefix(b, sp, k as nat);
        let rs = run_start(sp, k);
        if k > 0 {
            assert(sp[k - 1].1 <= sp[k].0);
        }
        let s = sp[k].0 as int;
        let e = sp[k].1 as int;
        let x = b.subrange(0, rs);
        let y = b.subrange(rs, s);
        let z = b.subrange(s, e);
        assert(is_char_boundary(b, 0));
        lemma_piece_valid(b, 0, rs);
        lemma_piece_valid(b, rs, s);
        lemma_piece_valid(b, s, e);
        lemma_decode_concat(x, y);
        valid_utf8_concat(x, y);
        lemma_decode_concat(x + y, z);
        assert(x + y + z =~= b.subrange(0, e));
    }
}

/// Plain runs and URL runs, taken as characters and left unmangled, give the
/// text back: every character lies in exactly one run, in order.
pub proof fn law_unmangled_runs_give_text(text: Seq<char>, sp: Seq<(usize, usize)>)
    requires
        spans_valid(encode_utf8(text), sp),
    ensures
        kept(encode_utf8(text), sp, sp.len()) + decode_utf8(
            plain_bytes(encode_utf8(text), sp, sp.len() as int),
        ) == text,
{
    let b = encode_utf8(text);
    lemma_kept_prefix(b, sp, sp.len());
    let rs = run_start(sp, sp.len() as int);
    if sp.len() > 0 {
        assert(sp[sp.len() - 1].1 <= b.len());
    }
    assert(is_char_boundary(b, 0));
    assert(is_char_boundary(b, b.len() as int));
    lemma_piece_valid(b, 0, rs);
    lemma_piece_valid(b, rs, b.len() as int);
    lemma_decode_concat(b.subrange(0, rs), b.subrange(rs, b.len() as int));
    assert(b.subrange(0, rs) + b.subrange(rs, b.len() as int) =~= b);
}

} // verus!
