//! Bounded-size text segmentation.
//!
//! Long input text is split into fragments at sentence or clause
//! boundaries so that each fragment can be synthesized on its own and the
//! audio chunks concatenated in fragment order.  The chunk size is a soft
//! budget: a fragment ends at the last boundary character inside the
//! budget, and only when no boundary exists there is it cut hard, which
//! guarantees forward progress.  Whitespace between fragments is dropped;
//! an empty or whitespace-only input yields no fragments at all.

use vstd::prelude::*;
use vstd::string::StrSliceExecFns;
use vstd::string::StringExecFns;

verus! {

/// Whitespace: dropped at fragment boundaries, never starts a fragment.
pub open spec fn is_ws_char(c: char) -> bool {
    c == ' ' || c == '\t' || c == '\n' || c == '\r' || c == '\u{3000}'
}

/// Sentence or clause boundary: a fragment may end right after one.
pub open spec fn is_boundary_char(c: char) -> bool {
    c == '.' || c == ',' || c == ';' || c == ':' || c == '!' || c == '?' || c == '\n'
        || c == '\u{3002}'  // ideographic full stop
        || c == '\u{ff0e}'  // fullwidth full stop
        || c == '\u{ff0c}'  // fullwidth comma
        || c == '\u{3001}'  // ideographic comma
        || c == '\u{ff1b}'  // fullwidth semicolon
        || c == '\u{ff1a}'  // fullwidth colon
        || c == '\u{ff01}'  // fullwidth exclamation mark
        || c == '\u{ff1f}'  // fullwidth question mark
        || c == '\u{2026}'  // horizontal ellipsis
}

/// The non-whitespace characters of `s`, in order.
pub open spec fn content(s: Seq<char>) -> Seq<char>
    decreases s.len(),
{
    if s.len() == 0 {
        Seq::empty()
    } else if is_ws_char(s[0]) {
        content(s.drop_first())
    } else {
        seq![s[0]] + content(s.drop_first())
    }
}

/// Index of the last boundary character of `s` before position `n`, or -1.
pub open spec fn last_boundary_before(s: Seq<char>, n: nat) -> int
    decreases n,
{
    if n == 0 || n > s.len() {
        -1
    } else if is_boundary_char(s[n - 1]) {
        n - 1
    } else {
        last_boundary_before(s, (n - 1) as nat)
    }
}

/// Length of the fragment cut from the front of `s` under budget `chunk`:
/// all of `s` if it fits, else up to the last boundary inside the budget,
/// else exactly the budget (the hard cut).
pub open spec fn cut_len(s: Seq<char>, chunk: nat) -> int {
    if s.len() <= chunk {
        s.len() as int
    } else {
        let b = last_boundary_before(s, chunk);
        if b >= 0 {
            b + 1
        } else {
            chunk as int
        }
    }
}

/// The fragments of `s` under budget `chunk`: leading whitespace is
/// dropped, then one fragment of `cut_len` characters is taken, and the
/// rest is split the same way.
pub open spec fn split_from(s: Seq<char>, chunk: nat) -> Seq<Seq<char>>
    decreases s.len(),
{
    if chunk == 0 || s.len() == 0 {
        Seq::empty()
    } else if is_ws_char(s[0]) {
        split_from(s.drop_first(), chunk)
    } else {
        let k = cut_len(s, chunk);
        if 1 <= k <= s.len() {
            seq![s.take(k)] + split_from(s.skip(k), chunk)
        } else {
            Seq::empty()
        }
    }
}

/// A chunk budget of 0 stands for the default budget of 50.
pub open spec fn resolved_chunk(n: nat) -> nat {
    if n == 0 {
        50
    } else {
        n
    }
}

/// The fragments `split_text` produces for `s` and the raw budget `n`.
pub open spec fn fragments_of(s: Seq<char>, n: nat) -> Seq<Seq<char>> {
    split_from(s, resolved_chunk(n))
}

/// `last_boundary_before` stays in range and points at a boundary.
proof fn lemma_lbb_bounds(s: Seq<char>, n: nat)
    ensures
        -1 <= last_boundary_before(s, n) < n,
        last_boundary_before(s, n) >= 0 ==> last_boundary_before(s, n) < s.len()
            && is_boundary_char(s[last_boundary_before(s, n)]),
    decreases n,
{
    if n > 0 && n <= s.len() && !is_boundary_char(s[n - 1]) {
        lemma_lbb_bounds(s, (n - 1) as nat);
    }
}

/// The cut always makes progress and never exceeds budget or text.
proof fn lemma_cut_len_bounds(s: Seq<char>, chunk: nat)
    requires
        s.len() > 0,
        chunk >= 1,
    ensures
        1 <= cut_len(s, chunk) <= s.len(),
        cut_len(s, chunk) <= chunk,
{
    lemma_lbb_bounds(s, chunk);
}

/// `content` distributes over concatenation.
proof fn lemma_content_add(a: Seq<char>, b: Seq<char>)
    ensures
        content(a + b) == content(a) + content(b),
    decreases a.len(),
{
    if a.len() == 0 {
        assert(a + b =~= b);
        assert(content(a) + content(b) =~= content(b));
    } else {
        assert((a + b).drop_first() =~= a.drop_first() + b);
        lemma_content_add(a.drop_first(), b);
        if !is_ws_char(a[0]) {
            assert(seq![a[0]] + (content(a.drop_first()) + content(b)) =~= (seq![a[0]] + content(
                a.drop_first(),
            )) + content(b));
        }
    }
}

/// The laws of segmentation: the fragments carry exactly the input's
/// non-whitespace content in order, every fragment is nonempty and within
/// budget, and there are no fragments exactly when the input has no
/// content.
pub proof fn lemma_split_from_props(s: Seq<char>, chunk: nat)
    requires
        chunk >= 1,
    ensures
        content(split_from(s, chunk).flatten()) == content(s),
        forall|i: int|
            0 <= i < split_from(s, chunk).len() ==> 0 < (#[trigger] split_from(s, chunk)[i]).len()
                <= chunk,
        split_from(s, chunk).len() == 0 <==> content(s).len() == 0,
    decreases s.len(),
{
    if s.len() == 0 {
    } else if is_ws_char(s[0]) {
        lemma_split_from_props(s.drop_first(), chunk);
    } else {
        lemma_cut_len_bounds(s, chunk);
        let k = cut_len(s, chunk);
        let frags = split_from(s, chunk);
        let rest = split_from(s.skip(k), chunk);
        lemma_split_from_props(s.skip(k), chunk);
        assert(frags == seq![s.take(k)] + rest);
        assert(frags.drop_first() =~= rest);
        assert(frags.flatten() == s.take(k) + rest.flatten());
        lemma_content_add(s.take(k), rest.flatten());
        assert(s.take(k) + s.skip(k) =~= s);
        lemma_content_add(s.take(k), s.skip(k));
        assert(content(frags.flatten()) =~= content(s));
        assert(content(s).len() >= content(s.take(k)).len());
        assert(content(s.take(k))[0] == s[0]) by {
            assert(s.take(k)[0] == s[0]);
        }
        assert forall|i: int| 0 <= i < frags.len() implies 0 < (#[trigger] frags[i]).len()
            <= chunk by {
            if i > 0 {
                assert(frags[i] == rest[i - 1]);
            }
        }
    }
}

/// A chunk budget of 0 yields exactly the fragments of the default
/// budget of 50, so segmented inference behaves identically under both.
pub proof fn lemma_default_chunk_size(s: Seq<char>)
    ensures
        fragments_of(s, 0) == fragments_of(s, 50),
{
}

/// The laws of segmentation at the public budget: the fragments carry
/// exactly the input's non-whitespace content in order, every fragment is
/// nonempty and within the resolved budget, and there are no fragments
/// exactly when the input is empty or whitespace-only.
pub proof fn lemma_fragments_props(s: Seq<char>, n: nat)
    ensures
        content(fragments_of(s, n).flatten()) == content(s),
        forall|i: int|
            0 <= i < fragments_of(s, n).len() ==> 0 < (#[trigger] fragments_of(s, n)[i]).len()
                <= resolved_chunk(n),
        fragments_of(s, n).len() == 0 <==> content(s).len() == 0,
{
    lemma_split_from_props(s, resolved_chunk(n));
}

/// Converts `text` to its character sequence.
pub(crate) fn chars_of(text: &str) -> (v: Vec<char>)
    ensures
        v@ == text@,
{
    let n = text.unicode_len();
    let mut v: Vec<char> = Vec::new();
    let mut i: usize = 0;
    while i < n
        invariant
            i <= n,
            n == text@.len(),
            v@ == text@.take(i as int),
        decreases n - i,
    {
        v.push(text.get_char(i));
        proof {
            assert(text@.take(i + 1) =~= text@.take(i as int).push(text@[i as int]));
        }
        i += 1;
    }
    proof {
        assert(text@.take(n as int) =~= text@);
    }
    v
}

/// Exec mirror of [`is_ws_char`].
fn is_ws(c: char) -> (r: bool)
    ensures
        r == is_ws_char(c),
{
    c == ' ' || c == '\t' || c == '\n' || c == '\r' || c == '\u{3000}'
}

/// Exec mirror of [`is_boundary_char`].
fn is_boundary(c: char) -> (r: bool)
    ensures
        r == is_boundary_char(c),
{
    c == '.' || c == ',' || c == ';' || c == ':' || c == '!' || c == '?' || c == '\n'
        || c == '\u{3002}' || c == '\u{ff0e}' || c == '\u{ff0c}' || c == '\u{3001}'
        || c == '\u{ff1b}' || c == '\u{ff1a}' || c == '\u{ff01}' || c == '\u{ff1f}'
        || c == '\u{2026}'
}

/// Computes the cut length for the suffix of `chars` that starts at `pos`.
fn cut_at(chars: &Vec<char>, pos: usize, chunk: usize) -> (k: usize)
    requires
        chunk >= 1,
        pos < chars@.len(),
    ensures
        k == cut_len(chars@.skip(pos as int), chunk as nat),
        1 <= k <= chars@.len() - pos,
{
    proof {
        lemma_cut_len_bounds(chars@.skip(pos as int), chunk as nat);
    }
    let ghost suffix = chars@.skip(pos as int);
    let total = chars.len();
    let rem = total - pos;
    if rem <= chunk {
        return rem;
    }
    let mut j: usize = 0;
    let mut best: usize = 0;
    while j < chunk
        invariant
            j <= chunk,
            chunk < rem,
            total == chars@.len(),
            rem == chars@.len() - pos,
            pos < chars@.len(),
            suffix == chars@.skip(pos as int),
            best as int - 1 == last_boundary_before(suffix, j as nat),
        decreases chunk - j,
    {
        proof {
            assert(pos + j < chars@.len());
            assert(suffix[j as int] == chars@[pos + j]);
        }
        if is_boundary(chars[pos + j]) {
            best = j + 1;
        }
        j += 1;
    }
    if best > 0 {
        best
    } else {
        chunk
    }
}

/// Splits `text` into synthesizable fragments under the soft budget
/// `max_chunk_size` (0 stands for the default of 50).
///
/// Fragments end at sentence or clause boundaries where one exists within
/// budget and are cut hard otherwise; whitespace between fragments is
/// dropped and no fragment is empty.  An empty or whitespace-only input
/// produces no fragments.
pub fn split_text(text: &str, max_chunk_size: usize) -> (r: Vec<String>)
    ensures
        r.deep_view() == fragments_of(text@, max_chunk_size as nat),
{
    let chunk: usize = if max_chunk_size == 0 {
        50
    } else {
        max_chunk_size
    };
    let chars = chars_of(text);
    let n = chars.len();
    let mut frags: Vec<String> = Vec::new();
    let mut pos: usize = 0;
    proof {
        assert(text@.skip(0) =~= text@);
        assert(frags.deep_view() + split_from(text@, chunk as nat) =~= split_from(
            text@,
            chunk as nat,
        ));
    }
    while pos < n
        invariant
            pos <= n,
            n == text@.len(),
            chars@ == text@,
            chunk as nat == resolved_chunk(max_chunk_size as nat),
            chunk >= 1,
            frags.deep_view() + split_from(text@.skip(pos as int), chunk as nat) == split_from(
                text@,
                chunk as nat,
            ),
        decreases n - pos,
    {
        let ghost suffix = text@.skip(pos as int);
        if is_ws(chars[pos]) {
            proof {
                assert(suffix.drop_first() =~= text@.skip(pos + 1));
            }
            pos += 1;
        } else {
            let k = cut_at(&chars, pos, chunk);
            let frag = text.substring_char(pos, pos + k);
            let ghost prev = frags.deep_view();
            frags.push(String::from_str(frag));
            proof {
                assert(suffix.take(k as int) =~= text@.subrange(pos as int, pos + k));
                assert(suffix.skip(k as int) =~= text@.skip(pos + k));
                assert(split_from(suffix, chunk as nat) == seq![suffix.take(k as int)]
                    + split_from(text@.skip(pos + k), chunk as nat));
                assert(frags.deep_view() =~= prev.push(frag@));
                assert(prev + (seq![frag@] + split_from(text@.skip(pos + k), chunk as nat))
                    =~= frags.deep_view() + split_from(text@.skip(pos + k), chunk as nat));
            }
            pos += k;
        }
    }
    proof {
        assert(text@.skip(n as int) =~= Seq::<char>::empty());
        assert(frags.deep_view() + Seq::<Seq<char>>::empty() =~= frags.deep_view());
    }
    frags
}

} // verus!
