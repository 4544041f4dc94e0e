//! The meld lists of a snapshot as JSON text, and the small reader the
//! viewer uses to get them back.
//!
//! A list is written as `[{"type":"pon","tiles":[4,5,6],"called":5,
//! "from":2,"discard_n":3,"pos":1},…]` (`[]` when empty).  The reader is
//! not a general JSON parser: it splits the list at `},{`, each object at
//! commas (gluing the pieces of the `tiles` array back together) and each
//! field at its first colon.

use vstd::prelude::*;

use crate::snapshot::{MeldEntry, MeldView, meld_views};
use crate::text::{append_chars, chars_eq_lit, chars_of, int_chars, int_text, parse_int, parse_int_spec, split_chars, split_spec, string_of, views};

verus! {

// ── text model ────────────────────────────────────────────────

/// Unicode `White_Space`, the property `char::is_whitespace` tests.
pub open spec fn is_ws(c: char) -> bool {
    ||| '\u{9}' <= c <= '\u{d}'
    ||| c == ' '
    ||| c == '\u{85}'
    ||| c == '\u{a0}'
    ||| c == '\u{1680}'
    ||| '\u{2000}' <= c <= '\u{200a}'
    ||| c == '\u{2028}'
    ||| c == '\u{2029}'
    ||| c == '\u{202f}'
    ||| c == '\u{205f}'
    ||| c == '\u{3000}'
}

/// `s` without its leading whitespace.
pub open spec fn trim_start_ws(s: Seq<char>) -> Seq<char>
    decreases s.len(),
{
    if s.len() > 0 && is_ws(s[0]) {
        trim_start_ws(s.drop_first())
    } else {
        s
    }
}

/// `s` without its trailing whitespace.
pub open spec fn trim_end_ws(s: Seq<char>) -> Seq<char>
    decreases s.len(),
{
    if s.len() > 0 && is_ws(s.last()) {
        trim_end_ws(s.drop_last())
    } else {
        s
    }
}

/// `str::trim`.
pub open spec fn trim_ws(s: Seq<char>) -> Seq<char> {
    trim_end_ws(trim_start_ws(s))
}

/// `str::trim_start_matches(c)`.
pub open spec fn trim_start_char(s: Seq<char>, c: char) -> Seq<char>
    decreases s.len(),
{
    if s.len() > 0 && s[0] == c {
        trim_start_char(s.drop_first(), c)
    } else {
        s
    }
}

/// `str::trim_end_matches(c)`.
pub open spec fn trim_end_char(s: Seq<char>, c: char) -> Seq<char>
    decreases s.len(),
{
    if s.len() > 0 && s.last() == c {
        trim_end_char(s.drop_last(), c)
    } else {
        s
    }
}

/// `str::trim_matches(c)`.
pub open spec fn trim_char(s: Seq<char>, c: char) -> Seq<char> {
    trim_end_char(trim_start_char(s, c), c)
}

/// `str::split` by a non-empty text `pat`: the pieces from `start`, the
/// scan being at `i` (matches taken left to right, without overlap).
pub open spec fn split_pat_from(s: Seq<char>, pat: Seq<char>, start: int, i: int) -> Seq<Seq<char>>
    decreases s.len() - i,
{
    if pat.len() == 0 || i < start || i + pat.len() > s.len() {
        seq![s.subrange(start, s.len() as int)]
    } else if s.subrange(i, i + pat.len()) == pat {
        seq![s.subrange(start, i)] + split_pat_from(s, pat, i + pat.len(), i + pat.len())
    } else {
        split_pat_from(s, pat, start, i + 1)
    }
}

pub open spec fn split_pat(s: Seq<char>, pat: Seq<char>) -> Seq<Seq<char>> {
    split_pat_from(s, pat, 0, 0)
}

/// Index of the first `c`, if any.
pub open spec fn first_index(s: Seq<char>, c: char) -> Option<int>
    decreases s.len(),
{
    if s.len() == 0 {
        None
    } else if s[0] == c {
        Some(0)
    } else {
        match first_index(s.drop_first(), c) {
            Some(i) => Some(i + 1),
            None => None,
        }
    }
}

/// `splitn(2, ':')` when it gives two pieces: the text before the first
/// colon and the text after it.
pub open spec fn colon_split(s: Seq<char>) -> Option<(Seq<char>, Seq<char>)> {
    match first_index(s, ':') {
        Some(i) => Some((s.take(i), s.skip(i + 1))),
        None => None,
    }
}

// ── writing ───────────────────────────────────────────────────

/// The tile ids separated by commas.
pub open spec fn join_ints(ts: Seq<i32>) -> Seq<char>
    decreases ts.len(),
{
    if ts.len() == 0 {
        Seq::empty()
    } else if ts.len() == 1 {
        int_text(ts[0] as int)
    } else {
        join_ints(ts.drop_last()) + seq![','] + int_text(ts.last() as int)
    }
}

/// The fields of one meld, as they stand between the braces:
/// `"type":"…","tiles":[…],"called":…,"from":…,"discard_n":…,"pos":…`.
pub open spec fn meld_body(m: MeldView) -> Seq<char> {
    let (s0, s1, s2, s3, s4, s5) = body_fields(m);
    s0 + seq![','] + (s1 + seq![','] + (s2 + seq![','] + (s3 + seq![','] + (s4 + seq![','] + s5))))
}

/// One meld as a JSON object.
pub open spec fn meld_text(m: MeldView) -> Seq<char> {
    "{"@ + meld_body(m) + "}"@
}

/// The objects separated by commas.
pub open spec fn join_melds(ms: Seq<MeldView>) -> Seq<char>
    decreases ms.len(),
{
    if ms.len() == 0 {
        Seq::empty()
    } else if ms.len() == 1 {
        meld_text(ms[0])
    } else {
        join_melds(ms.drop_last()) + seq![','] + meld_text(ms.last())
    }
}

/// A meld list as a JSON array (`[]` when empty).
pub open spec fn json_text(ms: Seq<MeldView>) -> Seq<char> {
    if ms.len() == 0 {
        "[]"@
    } else {
        "["@ + join_melds(ms) + "]"@
    }
}

// ── reading ───────────────────────────────────────────────────

/// The fields of a meld before any is read.
pub open spec fn blank_meld() -> MeldView {
    MeldView {
        meld_type: Seq::empty(),
        tiles: Seq::empty(),
        called_tile: 0i32,
        from_player: -1i8,
        discard_n: 0i32,
        called_pos: -1i8,
    }
}

/// A field name or value without surrounding whitespace and quotes.
pub open spec fn unquote(s: Seq<char>) -> Seq<char> {
    trim_char(trim_ws(s), '"')
}

/// An integer field (`d` when it does not parse).
pub open spec fn int_or(v: Seq<char>, lo: int, hi: int, d: int) -> int {
    match parse_int_spec(v, true, lo, hi) {
        Some(x) => x,
        None => d,
    }
}

/// The meld after reading the field `k` with the value `v`.
pub open spec fn set_field(m: MeldView, k: Seq<char>, v: Seq<char>) -> MeldView {
    if k == "type"@ {
        MeldView { meld_type: v, ..m }
    } else if k == "called"@ {
        MeldView { called_tile: int_or(v, i32::MIN as int, i32::MAX as int, 0) as i32, ..m }
    } else if k == "from"@ {
        MeldView { from_player: int_or(v, i8::MIN as int, i8::MAX as int, -1) as i8, ..m }
    } else if k == "discard_n"@ {
        MeldView { discard_n: int_or(v, i32::MIN as int, i32::MAX as int, 0) as i32, ..m }
    } else if k == "pos"@ {
        MeldView { called_pos: int_or(v, i8::MIN as int, i8::MAX as int, -1) as i8, ..m }
    } else {
        m
    }
}

/// The integers among the first `n` pieces, each trimmed.
pub open spec fn trimmed_ints(ps: Seq<Seq<char>>, n: int) -> Seq<i32>
    decreases n,
{
    if n <= 0 {
        Seq::empty()
    } else {
        let rest = trimmed_ints(ps, n - 1);
        match parse_int_spec(trim_ws(ps[n - 1]), true, i32::MIN as int, i32::MAX as int) {
            Some(x) => rest.push(x as i32),
            None => rest,
        }
    }
}

/// The tiles of an array value `[a,b,…]`.
pub open spec fn tile_list(v: Seq<char>) -> Seq<i32> {
    let inner = trim_end_char(trim_start_char(trim_ws(v), '['), ']');
    let ps = split_spec(inner, ',');
    trimmed_ints(ps, ps.len() as int)
}

/// One comma-separated piece of an object read into `(meld, pending)`,
/// where `pending` holds an array value still missing its closing bracket.
pub open spec fn seg_step(acc: (MeldView, Seq<char>), seg: Seq<char>) -> (MeldView, Seq<char>) {
    let (m, cur) = acc;
    if seg.contains('[') && !seg.contains(']') {
        (m, seg.push(','))
    } else if cur.len() > 0 {
        let cur2 = cur.push(',') + seg;
        if seg.contains(']') {
            (
                match colon_split(cur2) {
                    Some((_k, v)) => MeldView { tiles: tile_list(v), ..m },
                    None => m,
                },
                Seq::empty(),
            )
        } else {
            (m, cur2)
        }
    } else {
        (
            match colon_split(seg) {
                Some((k, v)) => set_field(m, unquote(k), unquote(v)),
                None => m,
            },
            cur,
        )
    }
}

/// The first `n` pieces read in order, starting from `acc`.
pub open spec fn read_segs(acc: (MeldView, Seq<char>), segs: Seq<Seq<char>>, n: int) -> (MeldView, Seq<char>)
    decreases n,
{
    if n <= 0 {
        acc
    } else {
        seg_step(read_segs(acc, segs, n - 1), segs[n - 1])
    }
}

/// One object of the list (its braces possibly already cut off).
pub open spec fn part_meld(part: Seq<char>) -> MeldView {
    let p = trim_end_char(trim_start_char(trim_ws(part), '{'), '}');
    let segs = split_spec(p, ',');
    read_segs((blank_meld(), Seq::empty()), segs, segs.len() as int).0
}

/// The list text cut to what lies between its outer brackets can be
/// sliced there (its first and last characters are one byte each), unless
/// it is empty or `[]`.
pub open spec fn json_readable(s: Seq<char>) -> bool {
    let t = trim_ws(s);
    t == "[]"@ || t.len() == 0 || (t.len() >= 2 && (t[0] as u32) < 128 && (t.last() as u32) < 128)
}

/// The melds read from a list text.
pub open spec fn read_json(s: Seq<char>) -> Seq<MeldView> {
    let t = trim_ws(s);
    if t == "[]"@ || t.len() == 0 {
        Seq::empty()
    } else {
        split_pat(t.subrange(1, t.len() - 1), "},{"@).map_values(|p: Seq<char>| part_meld(p))
    }
}

// ── executable text helpers ───────────────────────────────────

/// `char::is_whitespace`.
fn ws_char(c: char) -> (r: bool)
    ensures
        r == is_ws(c),
{
    ('\u{9}' <= c && c <= '\u{d}') || c == ' ' || c == '\u{85}' || c == '\u{a0}' || c == '\u{1680}'
        || ('\u{2000}' <= c && c <= '\u{200a}') || c == '\u{2028}' || c == '\u{2029}' || c == '\u{202f}'
        || c == '\u{205f}' || c == '\u{3000}'
}

/// The characters `lo..hi`.
fn slice_chars(v: &Vec<char>, lo: usize, hi: usize) -> (r: Vec<char>)
    requires
        lo <= hi <= v.len(),
    ensures
        r@ == v@.subrange(lo as int, hi as int),
{
    let mut r: Vec<char> = Vec::new();
    let mut i = lo;
    while i < hi
        invariant
            lo <= i <= hi,
            hi <= v.len(),
            r@ == v@.subrange(lo as int, i as int),
        decreases hi - i,
    {
        r.push(v[i]);
        i = i + 1;
        assert(r@ =~= v@.subrange(lo as int, i as int));
    }
    r
}

proof fn lemma_trim_start_ws(s: Seq<char>, i: int)
    requires
        0 <= i <= s.len(),
        forall|j: int| 0 <= j < i ==> is_ws(#[trigger] s[j]),
        i < s.len() ==> !is_ws(s[i]),
    ensures
        trim_start_ws(s) == s.subrange(i, s.len() as int),
    decreases i,
{
    if i > 0 {
        lemma_trim_start_ws(s.drop_first(), i - 1);
        assert(s.drop_first().subrange(i - 1, s.len() - 1) =~= s.subrange(i, s.len() as int));
    } else {
        assert(s.subrange(0, s.len() as int) =~= s);
    }
}

proof fn lemma_trim_end_ws(s: Seq<char>, k: int)
    requires
        0 <= k <= s.len(),
        forall|j: int| k <= j < s.len() ==> is_ws(#[trigger] s[j]),
        k > 0 ==> !is_ws(s[k - 1]),
    ensures
        trim_end_ws(s) == s.subrange(0, k),
    decreases s.len() - k,
{
    if k < s.len() {
        lemma_trim_end_ws(s.drop_last(), k);
        assert(s.drop_last().subrange(0, k) =~= s.subrange(0, k));
    } else {
        assert(s.subrange(0, k) =~= s);
    }
}

/// `str::trim`.
fn trim_chars(v: &Vec<char>) -> (r: Vec<char>)
    ensures
        r@ == trim_ws(v@),
{
    let mut i: usize = 0;
    while i < v.len() && ws_char(v[i])
        invariant
            0 <= i <= v.len(),
            forall|j: int| 0 <= j < i ==> is_ws(#[trigger] v@[j]),
        decreases v.len() - i,
    {
        i = i + 1;
    }
    proof {
        lemma_trim_start_ws(v@, i as int);
    }
    let ghost t = v@.subrange(i as int, v@.len() as int);
    let mut k: usize = v.len();
    while k > i && ws_char(v[k - 1])
        invariant
            i <= k <= v.len(),
            t == v@.subrange(i as int, v@.len() as int),
            forall|j: int| k <= j < v.len() ==> is_ws(#[trigger] v@[j]),
        decreases k,
    {
        k = k - 1;
    }
    proof {
        assert forall|j: int| k - i <= j < t.len() implies is_ws(#[trigger] t[j]) by {
            assert(t[j] == v@[i + j]);
        }
        lemma_trim_end_ws(t, k - i);
        assert(t.subrange(0, k - i) =~= v@.subrange(i as int, k as int));
    }
    slice_chars(v, i, k)
}

proof fn lemma_trim_start_char(s: Seq<char>, c: char, i: int)
    requires
        0 <= i <= s.len(),
        forall|j: int| 0 <= j < i ==> #[trigger] s[j] == c,
        i < s.len() ==> s[i] != c,
    ensures
        trim_start_char(s, c) == s.subrange(i, s.len() as int),
    decreases i,
{
    if i > 0 {
        lemma_trim_start_char(s.drop_first(), c, i - 1);
        assert(s.drop_first().subrange(i - 1, s.len() - 1) =~= s.subrange(i, s.len() as int));
    } else {
        assert(s.subrange(0, s.len() as int) =~= s);
    }
}

proof fn lemma_trim_end_char(s: Seq<char>, c: char, k: int)
    requires
        0 <= k <= s.len(),
        forall|j: int| k <= j < s.len() ==> #[trigger] s[j] == c,
        k > 0 ==> s[k - 1] != c,
    ensures
        trim_end_char(s, c) == s.subrange(0, k),
    decreases s.len() - k,
{
    if k < s.len() {
        lemma_trim_end_char(s.drop_last(), c, k);
        assert(s.drop_last().subrange(0, k) =~= s.subrange(0, k));
    } else {
        assert(s.subrange(0, k) =~= s);
    }
}

/// `str::trim_start_matches(c)`.
fn trim_start_of(v: &Vec<char>, c: char) -> (r: Vec<char>)
    ensures
        r@ == trim_start_char(v@, c),
{
    let mut i: usize = 0;
    while i < v.len() && v[i] == c
        invariant
            0 <= i <= v.len(),
            forall|j: int| 0 <= j < i ==> #[trigger] v@[j] == c,
        decreases v.len() - i,
    {
        i = i + 1;
    }
    proof {
        lemma_trim_start_char(v@, c, i as int);
    }
    slice_chars(v, i, v.len())
}

/// `str::trim_end_matches(c)`.
fn trim_end_of(v: &Vec<char>, c: char) -> (r: Vec<char>)
    ensures
        r@ == trim_end_char(v@, c),
{
    let mut k: usize = v.len();
    while k > 0 && v[k - 1] == c
        invariant
            0 <= k <= v.len(),
            forall|j: int| k <= j < v.len() ==> #[trigger] v@[j] == c,
        decreases k,
    {
        k = k - 1;
    }
    proof {
        lemma_trim_end_char(v@, c, k as int);
    }
    slice_chars(v, 0, k)
}

/// Whether `c` occurs.
fn has_char(v: &Vec<char>, c: char) -> (r: bool)
    ensures
        r == v@.contains(c),
{
    let mut i: usize = 0;
    while i < v.len()
        invariant
            0 <= i <= v.len(),
            forall|j: int| 0 <= j < i ==> #[trigger] v@[j] != c,
        decreases v.len() - i,
    {
        if v[i] == c {
            assert(v@[i as int] == c);
            return true;
        }
        i = i + 1;
    }
    false
}

proof fn lemma_first_index(s: Seq<char>, c: char, p: int)
    requires
        0 <= p <= s.len(),
        forall|j: int| 0 <= j < p ==> #[trigger] s[j] != c,
        p < s.len() ==> s[p] == c,
    ensures
        p < s.len() ==> first_index(s, c) == Some(p),
        p == s.len() ==> first_index(s, c).is_none(),
    decreases p,
{
    if p > 0 {
        lemma_first_index(s.drop_first(), c, p - 1);
    }
}

/// `splitn(2, ':')` when it gives two pieces.
fn split_colon(v: &Vec<char>) -> (r: Option<(Vec<char>, Vec<char>)>)
    ensures
        match r {
            Some((k, x)) => colon_split(v@) == Some((k@, x@)),
            None => colon_split(v@).is_none(),
        },
{
    let mut p: usize = 0;
    while p < v.len() && v[p] != ':'
        invariant
            0 <= p <= v.len(),
            forall|j: int| 0 <= j < p ==> #[trigger] v@[j] != ':',
        decreases v.len() - p,
    {
        p = p + 1;
    }
    proof {
        lemma_first_index(v@, ':', p as int);
    }
    if p < v.len() {
        let k = slice_chars(v, 0, p);
        let x = slice_chars(v, p + 1, v.len());
        assert(k@ =~= v@.take(p as int));
        assert(x@ =~= v@.skip(p + 1));
        Some((k, x))
    } else {
        None
    }
}

/// Whether `pat` occurs at `i`.
fn matches_at(v: &Vec<char>, pat: &Vec<char>, i: usize) -> (r: bool)
    requires
        i + pat.len() <= v.len(),
    ensures
        r == (v@.subrange(i as int, i + pat.len()) == pat@),
{
    let mut j: usize = 0;
    while j < pat.len()
        invariant
            0 <= j <= pat.len(),
            i + pat.len() <= v.len(),
            forall|k: int| 0 <= k < j ==> v@[i + k] == pat@[k],
        decreases pat.len() - j,
    {
        if v[i + j] != pat[j] {
            assert(v@.subrange(i as int, i + pat.len())[j as int] != pat@[j as int]);
            return false;
        }
        j = j + 1;
    }
    assert(v@.subrange(i as int, i + pat.len()) =~= pat@);
    true
}

/// `str::split` by a non-empty text.
fn split_by(v: &Vec<char>, pat: &Vec<char>) -> (r: Vec<Vec<char>>)
    requires
        pat.len() > 0,
    ensures
        views(r@) == split_pat(v@, pat@),
{
    let mut out: Vec<Vec<char>> = Vec::new();
    let mut start: usize = 0;
    let mut i: usize = 0;
    assert(views(out@) =~= Seq::<Seq<char>>::empty());
    while pat.len() <= v.len() - i
        invariant
            0 <= start <= i <= v.len(),
            pat.len() > 0,
            views(out@) + split_pat_from(v@, pat@, start as int, i as int) == split_pat(v@, pat@),
        decreases v.len() - i,
    {
        if matches_at(v, pat, i) {
            let piece = slice_chars(v, start, i);
            proof {
                assert(views(out@.push(piece)) =~= views(out@) + seq![piece@]);
                assert(views(out@) + split_pat_from(v@, pat@, start as int, i as int)
                    =~= views(out@.push(piece)) + split_pat_from(v@, pat@, i + pat.len(), i + pat.len()));
            }
            out.push(piece);
            i = i + pat.len();
            start = i;
        } else {
            i = i + 1;
        }
    }
    let last = slice_chars(v, start, v.len());
    proof {
        assert(views(out@.push(last)) =~= views(out@) + seq![last@]);
    }
    out.push(last);
    out
}

// ── writing ───────────────────────────────────────────────────

/// The tile ids separated by commas.
fn push_ints(out: &mut Vec<char>, ts: &Vec<i32>)
    ensures
        final(out)@ == old(out)@ + join_ints(ts@),
{
    let ghost o0 = out@;
    let mut i: usize = 0;
    while i < ts.len()
        invariant
            0 <= i <= ts.len(),
            out@ == o0 + join_ints(ts@.take(i as int)),
        decreases ts.len() - i,
    {
        if i > 0 {
            out.push(',');
        }
        let d = int_chars(ts[i] as i64);
        append_chars(out, &d);
        proof {
            let t1 = ts@.take(i + 1);
            assert(t1.drop_last() =~= ts@.take(i as int));
            if i == 0 {
                assert(ts@.take(0) =~= Seq::<i32>::empty());
            }
        }
        i = i + 1;
        assert(out@ =~= o0 + join_ints(ts@.take(i as int)));
    }
    assert(ts@.take(ts.len() as int) =~= ts@);
}

/// Appends the characters of a literal.
fn push_lit(out: &mut Vec<char>, lit: &str)
    ensures
        final(out)@ == old(out)@ + lit@,
{
    let l = chars_of(lit);
    append_chars(out, &l);
}

/// Appends the decimal text of an integer.
fn push_int(out: &mut Vec<char>, n: i32)
    ensures
        final(out)@ == old(out)@ + int_text(n as int),
{
    let d = int_chars(n as i64);
    append_chars(out, &d);
}

/// Appends a field name: the quoted key and a colon.
fn push_key(out: &mut Vec<char>, key: &str)
    ensures
        final(out)@ == old(out)@ + (seq!['"'] + key@ + seq!['"', ':']),
{
    let ghost o0 = out@;
    out.push('"');
    push_lit(out, key);
    out.push('"');
    out.push(':');
    assert(out@ =~= o0 + (seq!['"'] + key@ + seq!['"', ':']));
}

/// Appends a field of an integer value.
fn push_int_field(out: &mut Vec<char>, key: &str, x: i32)
    ensures
        final(out)@ == old(out)@ + field(key@, int_text(x as int)),
{
    let ghost o0 = out@;
    push_key(out, key);
    push_int(out, x);
    assert(out@ =~= o0 + field(key@, int_text(x as int)));
}

/// Appends the `type` field.
fn push_type_field(out: &mut Vec<char>, t: &String)
    ensures
        final(out)@ == old(out)@ + field("type"@, quoted(t@)),
{
    let ghost o0 = out@;
    push_key(out, "type");
    out.push('"');
    let c = chars_of(t.as_str());
    append_chars(out, &c);
    out.push('"');
    assert(out@ =~= o0 + field("type"@, quoted(t@)));
}

/// Appends the `tiles` field.
fn push_tiles_field(out: &mut Vec<char>, ts: &Vec<i32>)
    ensures
        final(out)@ == old(out)@ + field("tiles"@, seq!['['] + join_ints(ts@) + seq![']']),
{
    let ghost o0 = out@;
    push_key(out, "tiles");
    out.push('[');
    push_ints(out, ts);
    out.push(']');
    assert(out@ =~= o0 + field("tiles"@, seq!['['] + join_ints(ts@) + seq![']']));
}

/// One meld as a JSON object.
#[verifier::rlimit(40)]
fn push_meld(out: &mut Vec<char>, m: &MeldEntry)
    ensures
        final(out)@ == old(out)@ + meld_text(m@),
{
    let ghost o0 = out@;
    let ghost (s0, s1, s2, s3, s4, s5) = body_fields(m@);
    out.push('{');
    push_type_field(out, &m.meld_type);
    out.push(',');
    push_tiles_field(out, &m.tiles);
    out.push(',');
    push_int_field(out, "called", m.called_tile);
    out.push(',');
    push_int_field(out, "from", m.from_player as i32);
    out.push(',');
    push_int_field(out, "discard_n", m.discard_n);
    out.push(',');
    push_int_field(out, "pos", m.called_pos as i32);
    out.push('}');
    proof {
        reveal_strlit("{");
        reveal_strlit("}");
        assert("{"@ =~= seq!['{']);
        assert("}"@ =~= seq!['}']);
        assert(out@ =~= o0 + (seq!['{'] + s0 + seq![','] + s1 + seq![','] + s2 + seq![','] + s3 + seq![','] + s4 + seq![','] + s5 + seq!['}']));
        assert(meld_text(m@) =~= seq!['{'] + s0 + seq![','] + s1 + seq![','] + s2 + seq![','] + s3 + seq![','] + s4 + seq![','] + s5 + seq!['}']);
    }
}

/// A meld list as a JSON array (`[]` when empty).
pub fn json_melds(melds: &Vec<MeldEntry>) -> (r: String)
    ensures
        r@ == json_text(meld_views(melds@)),
{
    let ghost ms = meld_views(melds@);
    if melds.len() == 0 {
        return "[]".to_string();
    }
    let mut out: Vec<char> = chars_of("[");
    let ghost o0 = out@;
    let mut i: usize = 0;
    while i < melds.len()
        invariant
            0 <= i <= melds.len(),
            ms == meld_views(melds@),
            out@ == o0 + join_melds(ms.take(i as int)),
        decreases melds.len() - i,
    {
        if i > 0 {
            out.push(',');
        }
        push_meld(&mut out, &melds[i]);
        proof {
            let t1 = ms.take(i + 1);
            assert(t1.drop_last() =~= ms.take(i as int));
            assert(t1.last() == melds@[i as int]@);
            if i == 0 {
                assert(ms.take(0) =~= Seq::<MeldView>::empty());
            }
        }
        i = i + 1;
        assert(out@ =~= o0 + join_melds(ms.take(i as int)));
    }
    push_lit(&mut out, "]");
    assert(ms.take(melds.len() as int) =~= ms);
    string_of(&out)
}

// ── reading ───────────────────────────────────────────────────

/// The integers among the pieces, each trimmed.
fn read_tile_list(v: &Vec<char>) -> (r: Vec<i32>)
    ensures
        r@ == tile_list(v@),
{
    let t = trim_chars(v);
    let a = trim_start_of(&t, '[');
    let inner = trim_end_of(&a, ']');
    let ps = split_chars(&inner, ',');
    let ghost pv = views(ps@);
    let mut r: Vec<i32> = Vec::new();
    let mut i: usize = 0;
    while i < ps.len()
        invariant
            0 <= i <= ps.len(),
            pv == views(ps@),
            r@ == trimmed_ints(pv, i as int),
        decreases ps.len() - i,
    {
        assert(pv[i as int] == ps@[i as int]@);
        let p = trim_chars(&ps[i]);
        match parse_int(&p, true, i32::MIN as i64, i32::MAX as i64) {
            Some(x) => r.push(x as i32),
            None => {},
        }
        i = i + 1;
    }
    r
}

/// An integer field with a default.
fn read_int(v: &Vec<char>, lo: i64, hi: i64, d: i64) -> (r: i64)
    requires
        -0x1_0000_0000 <= lo <= d <= hi <= 0x1_0000_0000,
    ensures
        r == int_or(v@, lo as int, hi as int, d as int),
        lo <= r <= hi,
{
    match parse_int(v, true, lo, hi) {
        Some(x) => x,
        None => d,
    }
}

/// Reads the field `k` with the value `v` into the meld.
fn set_meld_field(m: &mut MeldEntry, k: &Vec<char>, v: &Vec<char>)
    ensures
        final(m)@ == set_field(old(m)@, k@, v@),
{
    if chars_eq_lit(k, "type") {
        m.meld_type = string_of(v);
    } else if chars_eq_lit(k, "called") {
        m.called_tile = read_int(v, i32::MIN as i64, i32::MAX as i64, 0) as i32;
    } else if chars_eq_lit(k, "from") {
        m.from_player = read_int(v, i8::MIN as i64, i8::MAX as i64, -1) as i8;
    } else if chars_eq_lit(k, "discard_n") {
        m.discard_n = read_int(v, i32::MIN as i64, i32::MAX as i64, 0) as i32;
    } else if chars_eq_lit(k, "pos") {
        m.called_pos = read_int(v, i8::MIN as i64, i8::MAX as i64, -1) as i8;
    }
}

/// Without surrounding whitespace and quotes.
fn unquote_chars(v: &Vec<char>) -> (r: Vec<char>)
    ensures
        r@ == unquote(v@),
{
    let t = trim_chars(v);
    let a = trim_start_of(&t, '"');
    trim_end_of(&a, '"')
}

/// One object of the list.
fn read_part(part: &Vec<char>) -> (r: MeldEntry)
    ensures
        r@ == part_meld(part@),
{
    let t = trim_chars(part);
    let a = trim_start_of(&t, '{');
    let p = trim_end_of(&a, '}');
    let segs = split_chars(&p, ',');
    let ghost sv = views(segs@);
    let mut m = MeldEntry {
        meld_type: String::new(),
        tiles: Vec::new(),
        called_tile: 0,
        from_player: -1,
        discard_n: 0,
        called_pos: -1,
    };
    let mut cur: Vec<char> = Vec::new();
    assert(m@ == blank_meld());
    let mut i: usize = 0;
    while i < segs.len()
        invariant
            0 <= i <= segs.len(),
            sv == views(segs@),
            sv == split_spec(p@, ','),
            (m@, cur@) == read_segs((blank_meld(), Seq::empty()), sv, i as int),
        decreases segs.len() - i,
    {
        assert(sv[i as int] == segs@[i as int]@);
        let seg = &segs[i];
        if has_char(seg, '[') && !has_char(seg, ']') {
            let mut c = seg.clone();
            assert(c@ =~= seg@);
            c.push(',');
            cur = c;
        } else if cur.len() > 0 {
            cur.push(',');
            append_chars(&mut cur, seg);
            if has_char(seg, ']') {
                match split_colon(&cur) {
                    Some((_k, x)) => {
                        m.tiles = read_tile_list(&x);
                    },
                    None => {},
                }
                cur = Vec::new();
            }
        } else {
            match split_colon(seg) {
                Some((k, x)) => {
                    let kk = unquote_chars(&k);
                    let xx = unquote_chars(&x);
                    set_meld_field(&mut m, &kk, &xx);
                },
                None => {},
            }
        }
        i = i + 1;
    }
    m
}

/// Whether [`parse_meld_json`] can read the text (see [`json_readable`]).
pub fn meld_json_readable(s: &str) -> (r: bool)
    ensures
        r == json_readable(s@),
{
    let v = chars_of(s);
    let t = trim_chars(&v);
    chars_eq_lit(&t, "[]") || t.len() == 0 || (t.len() >= 2 && (t[0] as u32) < 128 && (t[t.len() - 1] as u32) < 128)
}

/// The melds of a list written by [`json_melds`]: the list split at
/// `},{`, each object at commas and each field at its first colon; fields
/// missing or unreadable keep their defaults (empty type and tiles, called
/// tile 0, from -1, discard count 0, position -1).
pub fn parse_meld_json(s: &str) -> (r: Vec<MeldEntry>)
    requires
        json_readable(s@),
    ensures
        meld_views(r@) == read_json(s@),
{
    let v = chars_of(s);
    let t = trim_chars(&v);
    if chars_eq_lit(&t, "[]") || t.len() == 0 {
        let e: Vec<MeldEntry> = Vec::new();
        assert(meld_views(e@) =~= Seq::<MeldView>::empty());
        return e;
    }
    let inner = slice_chars(&t, 1, t.len() - 1);
    let sep = chars_of("},{");
    proof {
        reveal_strlit("},{");
    }
    let parts = split_by(&inner, &sep);
    let ghost pv = views(parts@);
    let mut out: Vec<MeldEntry> = Vec::new();
    let mut i: usize = 0;
    while i < parts.len()
        invariant
            0 <= i <= parts.len(),
            pv == views(parts@),
            out@.len() == i,
            forall|j: int| 0 <= j < i ==> #[trigger] out@[j]@ == part_meld(pv[j]),
        decreases parts.len() - i,
    {
        assert(pv[i as int] == parts@[i as int]@);
        let m = read_part(&parts[i]);
        out.push(m);
        i = i + 1;
    }
    assert(meld_views(out@) =~= pv.map_values(|p: Seq<char>| part_meld(p)));
    out
}

// ── reading back what was written ─────────────────────────────

/// A character of a plain name: any but the JSON punctuation `"` `,` `:`
/// `{` `}` `[` `]`.
pub open spec fn plain_char(c: char) -> bool {
    c != '"' && c != ',' && c != ':' && c != '{' && c != '}' && c != '[' && c != ']'
}

/// A meld whose text reads back as itself: its type free of JSON
/// punctuation, its tile list of any length but one.
pub open spec fn plain_meld(m: MeldView) -> bool {
    &&& forall|i: int| 0 <= i < m.meld_type.len() ==> plain_char(#[trigger] m.meld_type[i])
    &&& m.tiles.len() != 1
}

proof fn lemma_trim_ws_id(s: Seq<char>)
    requires
        s.len() > 0,
        !is_ws(s[0]),
        !is_ws(s.last()),
    ensures
        trim_ws(s) == s,
{
    assert(trim_start_ws(s) == s);
    assert(trim_end_ws(s) == s);
}

/// Scanning past positions that cannot start the separator.
proof fn lemma_scan_skip(s: Seq<char>, pat: Seq<char>, start: int, i: int, j: int)
    requires
        pat.len() > 0,
        0 <= start <= i <= j,
        j + pat.len() <= s.len(),
        forall|k: int| i <= k < j ==> s[k] != pat[0],
    ensures
        split_pat_from(s, pat, start, i) == split_pat_from(s, pat, start, j),
    decreases j - i,
{
    if i < j {
        assert(s.subrange(i, i + pat.len())[0] == s[i]);
        assert(s[i] != pat[0]);
        lemma_scan_skip(s, pat, start, i + 1, j);
    }
}

/// The scan over `a + y` past `a` is the scan over `y`.
proof fn lemma_scan_shift(a: Seq<char>, y: Seq<char>, pat: Seq<char>, j: int, k: int)
    requires
        pat.len() > 0,
        0 <= j <= k <= y.len(),
    ensures
        split_pat_from(a + y, pat, a.len() + j, a.len() + k) == split_pat_from(y, pat, j, k),
    decreases y.len() - k,
{
    let s = a + y;
    if k + pat.len() > y.len() {
        assert(s.subrange(a.len() + j, s.len() as int) =~= y.subrange(j, y.len() as int));
    } else {
        assert(s.subrange(a.len() + k, a.len() + k + pat.len()) =~= y.subrange(k, k + pat.len()));
        if y.subrange(k, k + pat.len()) == pat {
            assert(s.subrange(a.len() + j, a.len() + k) =~= y.subrange(j, k));
            lemma_scan_shift(a, y, pat, k + pat.len(), k + pat.len());
        } else {
            lemma_scan_shift(a, y, pat, j, k + 1);
        }
    }
}

/// Splitting `x + pat + y` where `x` cannot start the separator anywhere.
proof fn lemma_split_pat_head(x: Seq<char>, pat: Seq<char>, y: Seq<char>)
    requires
        pat.len() > 0,
        !x.contains(pat[0]),
    ensures
        split_pat(x + pat + y, pat) == seq![x] + split_pat(y, pat),
{
    let s = x + pat + y;
    assert forall|k: int| 0 <= k < x.len() implies s[k] != pat[0] by {
        assert(s[k] == x[k]);
    }
    lemma_scan_skip(s, pat, 0, 0, x.len() as int);
    assert(s.subrange(x.len() as int, (x.len() + pat.len()) as int) =~= pat);
    assert(s.subrange(0, x.len() as int) =~= x);
    assert(s =~= (x + pat) + y);
    lemma_scan_shift(x + pat, y, pat, 0, 0);
}

/// A text in which the separator's first character occurs at most at the
/// end is a single piece.
proof fn lemma_split_pat_single(y: Seq<char>, pat: Seq<char>, i: int)
    requires
        pat.len() > 1,
        0 <= i <= y.len(),
        forall|k: int| 0 <= k < y.len() - 1 ==> y[k] != pat[0],
    ensures
        split_pat_from(y, pat, 0, i) == seq![y],
    decreases y.len() - i,
{
    if i + pat.len() > y.len() {
        assert(y.subrange(0, y.len() as int) =~= y);
    } else {
        assert(y.subrange(i, i + pat.len())[0] != pat[0]);
        lemma_split_pat_single(y, pat, i + 1);
    }
}

/// A field as written: the quoted name, a colon, the value.
pub open spec fn field(k: Seq<char>, v: Seq<char>) -> Seq<char> {
    seq!['"'] + k + seq!['"', ':'] + v
}

/// A text between double quotes.
pub open spec fn quoted(t: Seq<char>) -> Seq<char> {
    seq!['"'] + t + seq!['"']
}

/// Every character is a plain-name character.
pub open spec fn plain_text(t: Seq<char>) -> bool {
    forall|i: int| 0 <= i < t.len() ==> plain_char(#[trigger] t[i])
}

proof fn lemma_plain_excludes(t: Seq<char>, c: char)
    requires
        plain_text(t),
        !plain_char(c),
    ensures
        !t.contains(c),
{
    if t.contains(c) {
        let i = choose|i: int| 0 <= i < t.len() && t[i] == c;
        assert(plain_char(t[i]));
    }
}

proof fn lemma_int_excludes(x: int, c: char)
    requires
        !('0' <= c <= '9') && c != '-',
    ensures
        !int_text(x).contains(c),
{
    crate::text::lemma_int_text_chars(x);
    if int_text(x).contains(c) {
        let i = choose|i: int| 0 <= i < int_text(x).len() && int_text(x)[i] == c;
        assert(crate::text::is_digit(int_text(x)[i]) || int_text(x)[i] == '-');
    }
}

proof fn lemma_concat_excludes(a: Seq<char>, b: Seq<char>, c: char)
    requires
        !a.contains(c),
        !b.contains(c),
    ensures
        !(a + b).contains(c),
{
    if (a + b).contains(c) {
        let i = choose|i: int| 0 <= i < (a + b).len() && (a + b)[i] == c;
        if i < a.len() {
            assert(a[i] == c);
        } else {
            assert(b[i - a.len()] == c);
        }
    }
}

proof fn lemma_concat_contains(a: Seq<char>, b: Seq<char>, c: char)
    requires
        a.contains(c) || b.contains(c),
    ensures
        (a + b).contains(c),
{
    if a.contains(c) {
        let i = choose|i: int| 0 <= i < a.len() && a[i] == c;
        assert((a + b)[i] == c);
    } else {
        let i = choose|i: int| 0 <= i < b.len() && b[i] == c;
        assert((a + b)[a.len() + i] == c);
    }
}

proof fn lemma_first_index_at(a: Seq<char>, c: char, b: Seq<char>)
    requires
        !a.contains(c),
    ensures
        first_index(a + seq![c] + b, c) == Some(a.len() as int),
    decreases a.len(),
{
    let s = a + seq![c] + b;
    if a.len() > 0 {
        assert(a[0] != c);
        assert(!a.drop_first().contains(c)) by {
            if a.drop_first().contains(c) {
                let i = choose|i: int| 0 <= i < a.drop_first().len() && a.drop_first()[i] == c;
                assert(a[i + 1] == c);
            }
        }
        lemma_first_index_at(a.drop_first(), c, b);
        assert(s.drop_first() =~= a.drop_first() + seq![c] + b);
    }
}

proof fn lemma_unquote_quoted(t: Seq<char>)
    requires
        plain_text(t),
    ensures
        unquote(quoted(t)) == t,
{
    let q = quoted(t);
    lemma_trim_ws_id(q);
    if t.len() == 0 {
        assert(q =~= seq!['"', '"']);
        assert(q.drop_first().drop_first() =~= Seq::<char>::empty());
        assert(trim_start_char(q.drop_first().drop_first(), '"') == Seq::<char>::empty());
        assert(trim_start_char(q.drop_first(), '"') == trim_start_char(q.drop_first().drop_first(), '"'));
        assert(trim_start_char(q, '"') == trim_start_char(q.drop_first(), '"'));
    } else {
        assert(plain_char(t[0]));
        assert(plain_char(t.last()));
        assert(q.drop_first() =~= t + seq!['"']);
        assert(q.drop_first()[0] == t[0]);
        assert(trim_start_char(q.drop_first(), '"') == q.drop_first());
        assert(trim_start_char(q, '"') == trim_start_char(q.drop_first(), '"'));
        assert(trim_start_char(q, '"') == t + seq!['"']);
        assert((t + seq!['"']).drop_last() =~= t);
        assert(trim_end_char(t + seq!['"'], '"') == trim_end_char(t, '"'));
    }
}

proof fn lemma_unquote_int(x: int)
    ensures
        unquote(int_text(x)) == int_text(x),
{
    crate::text::lemma_int_text_chars(x);
    let s = int_text(x);
    assert(crate::text::is_digit(s[0]) || s[0] == '-');
    lemma_trim_ws_id(s);
}

proof fn lemma_colon_field(k: Seq<char>, v: Seq<char>)
    requires
        !k.contains(':'),
    ensures
        colon_split(field(k, v)) == Some((quoted(k), v)),
{
    let a = seq!['"'] + k + seq!['"'];
    lemma_concat_excludes(seq!['"'], k, ':');
    lemma_concat_excludes(seq!['"'] + k, seq!['"'], ':');
    assert(field(k, v) =~= a + seq![':'] + v);
    lemma_first_index_at(a, ':', v);
    assert(field(k, v).take(a.len() as int) =~= a);
    assert(field(k, v).skip((a.len() + 1) as int) =~= v);
}

/// Reading one field of a plain name when nothing is pending.
proof fn lemma_field_step(m: MeldView, k: Seq<char>, v: Seq<char>)
    requires
        plain_text(k),
        !v.contains('['),
    ensures
        seg_step((m, Seq::empty()), field(k, v)) == (set_field(m, unquote(quoted(k)), unquote(v)), Seq::<char>::empty()),
{
    lemma_plain_excludes(k, ':');
    lemma_plain_excludes(k, '[');
    lemma_concat_excludes(seq!['"'], k, '[');
    lemma_concat_excludes(seq!['"'] + k, seq!['"', ':'], '[');
    lemma_concat_excludes(seq!['"'] + k + seq!['"', ':'], v, '[');
    lemma_colon_field(k, v);
}

/// Reading pieces in two runs.
proof fn lemma_read_concat(acc: (MeldView, Seq<char>), a: Seq<Seq<char>>, b: Seq<Seq<char>>, k: int)
    requires
        0 <= k <= b.len(),
    ensures
        read_segs(acc, a + b, a.len() + k) == read_segs(read_segs(acc, a, a.len() as int), b, k),
    decreases k,
{
    if k == 0 {
        lemma_read_prefix(acc, a + b, a, a.len() as int);
    } else {
        lemma_read_concat(acc, a, b, k - 1);
        assert((a + b)[a.len() + k - 1] == b[k - 1]);
    }
}

/// Reading depends only on the pieces read.
proof fn lemma_read_prefix(acc: (MeldView, Seq<char>), s: Seq<Seq<char>>, t: Seq<Seq<char>>, n: int)
    requires
        0 <= n <= s.len(),
        n <= t.len(),
        forall|i: int| 0 <= i < n ==> s[i] == t[i],
    ensures
        read_segs(acc, s, n) == read_segs(acc, t, n),
    decreases n,
{
    if n > 0 {
        lemma_read_prefix(acc, s, t, n - 1);
    }
}

/// The text up to the opening bracket of the tile array.
pub open spec fn tiles_head() -> Seq<char> {
    field("tiles"@, seq!['['])
}

/// `,t1,t2,…,t(k-1)`: the tiles after the first, each after a comma.
pub open spec fn mids(ts: Seq<i32>, k: int) -> Seq<char>
    decreases k,
{
    if k <= 1 {
        Seq::empty()
    } else {
        mids(ts, k - 1) + seq![','] + int_text(ts[k - 1] as int)
    }
}

/// The texts of the tiles.
pub open spec fn tile_texts(ts: Seq<i32>) -> Seq<Seq<char>> {
    Seq::new(ts.len(), |i: int| int_text(ts[i] as int))
}

proof fn lemma_keys()
    ensures
        plain_text("type"@),
        plain_text("tiles"@),
        plain_text("called"@),
        plain_text("from"@),
        plain_text("discard_n"@),
        plain_text("pos"@),
        "tiles"@ != "type"@ && "tiles"@ != "called"@ && "tiles"@ != "from"@ && "tiles"@ != "discard_n"@ && "tiles"@ != "pos"@,
        "called"@ != "type"@,
        "from"@ != "type"@ && "from"@ != "called"@,
        "discard_n"@ != "type"@ && "discard_n"@ != "called"@ && "discard_n"@ != "from"@,
        "pos"@ != "type"@ && "pos"@ != "called"@ && "pos"@ != "from"@ && "pos"@ != "discard_n"@,
{
    reveal_strlit("type");
    reveal_strlit("tiles");
    reveal_strlit("called");
    reveal_strlit("from");
    reveal_strlit("discard_n");
    reveal_strlit("pos");
    assert("type"@.len() == 4 && "tiles"@.len() == 5 && "called"@.len() == 6);
    assert("from"@.len() == 4 && "discard_n"@.len() == 9 && "pos"@.len() == 3);
    assert("from"@[0] != "type"@[0]);
}

/// Splitting a prefix followed by comma-joined tiles.
proof fn lemma_split_join(prefix: Seq<char>, ts: Seq<i32>)
    requires
        ts.len() >= 1,
        !prefix.contains(','),
    ensures
        split_spec(prefix + join_ints(ts), ',') == seq![prefix + int_text(ts[0] as int)]
            + Seq::new((ts.len() - 1) as nat, |i: int| int_text(ts[i + 1] as int)),
    decreases ts.len(),
{
    lemma_int_excludes(ts[0] as int, ',');
    if ts.len() == 1 {
        lemma_concat_excludes(prefix, int_text(ts[0] as int), ',');
        crate::text::lemma_split_none(prefix + int_text(ts[0] as int), ',');
        assert(Seq::new(0nat, |i: int| int_text(ts[i + 1] as int)) =~= Seq::<Seq<char>>::empty());
        assert(prefix + join_ints(ts) =~= prefix + int_text(ts[0] as int));
    } else {
        let init = ts.drop_last();
        lemma_split_join(prefix, init);
        lemma_int_excludes(ts.last() as int, ',');
        crate::text::lemma_split_none(int_text(ts.last() as int), ',');
        assert(prefix + join_ints(ts) =~= (prefix + join_ints(init)) + seq![','] + int_text(ts.last() as int));
        crate::text::lemma_split_concat(prefix + join_ints(init), int_text(ts.last() as int), ',');
        assert(init[0] == ts[0]);
        assert(seq![prefix + int_text(ts[0] as int)] + Seq::new((init.len() - 1) as nat, |i: int| int_text(init[i + 1] as int))
            + seq![int_text(ts.last() as int)]
            =~= seq![prefix + int_text(ts[0] as int)] + Seq::new((ts.len() - 1) as nat, |i: int| int_text(ts[i + 1] as int)));
    }
}

proof fn lemma_mids(ts: Seq<i32>, k: int)
    requires
        2 <= k <= ts.len(),
    ensures
        mids(ts, k) == seq![','] + join_ints(ts.subrange(1, k)),
    decreases k,
{
    if k == 2 {
        assert(mids(ts, 1) == Seq::<char>::empty());
        assert(join_ints(ts.subrange(1, 2)) == int_text(ts[1] as int));
        assert(mids(ts, 2) =~= seq![','] + join_ints(ts.subrange(1, 2)));
    } else {
        lemma_mids(ts, k - 1);
        let sub = ts.subrange(1, k);
        assert(sub.drop_last() =~= ts.subrange(1, k - 1));
        assert(sub.last() == ts[k - 1]);
        assert(mids(ts, k) =~= seq![','] + join_ints(ts.subrange(1, k)));
    }
}

proof fn lemma_trimmed_concat(a: Seq<Seq<char>>, b: Seq<Seq<char>>, k: int)
    requires
        0 <= k <= b.len(),
    ensures
        trimmed_ints(a + b, a.len() + k) == trimmed_ints(a, a.len() as int) + trimmed_ints(b, k),
    decreases k,
{
    if k == 0 {
        lemma_trimmed_prefix(a + b, a, a.len() as int);
        assert(trimmed_ints(b, 0) == Seq::<i32>::empty());
        assert(trimmed_ints(a, a.len() as int) + Seq::<i32>::empty() =~= trimmed_ints(a, a.len() as int));
    } else {
        lemma_trimmed_concat(a, b, k - 1);
        assert((a + b)[a.len() + k - 1] == b[k - 1]);
        let ra = trimmed_ints(a, a.len() as int);
        let rb = trimmed_ints(b, k - 1);
        match parse_int_spec(trim_ws(b[k - 1]), true, i32::MIN as int, i32::MAX as int) {
            Some(x) => {
                assert((ra + rb).push(x as i32) =~= ra + rb.push(x as i32));
            },
            None => {},
        }
    }
}

proof fn lemma_trimmed_prefix(s: Seq<Seq<char>>, t: Seq<Seq<char>>, n: int)
    requires
        0 <= n <= s.len(),
        n <= t.len(),
        forall|i: int| 0 <= i < n ==> s[i] == t[i],
    ensures
        trimmed_ints(s, n) == trimmed_ints(t, n),
    decreases n,
{
    if n > 0 {
        lemma_trimmed_prefix(s, t, n - 1);
    }
}

proof fn lemma_trimmed_texts(ts: Seq<i32>, k: int)
    requires
        0 <= k <= ts.len(),
    ensures
        trimmed_ints(tile_texts(ts), k) == ts.take(k),
    decreases k,
{
    if k > 0 {
        lemma_trimmed_texts(ts, k - 1);
        let x = ts[k - 1];
        crate::text::lemma_int_text_chars(x as int);
        lemma_trim_ws_id(int_text(x as int));
        crate::text::lemma_int_text_parse(x as int, i32::MIN as int, i32::MAX as int);
        assert(tile_texts(ts)[k - 1] == int_text(x as int));
        assert(ts.take(k - 1).push(x) =~= ts.take(k));
    } else {
        assert(ts.take(0) =~= Seq::<i32>::empty());
    }
}

/// Cutting the brackets off the array value gathered by the reader.
proof fn lemma_tile_list_inner(ts: Seq<i32>)
    requires
        ts.len() >= 2,
    ensures
        tile_list(seq!['['] + int_text(ts[0] as int) + seq![','] + mids(ts, ts.len() as int) + seq![']'])
            == ({
                let ps = split_spec(int_text(ts[0] as int) + seq![','] + mids(ts, ts.len() as int), ',');
                trimmed_ints(ps, ps.len() as int)
            }),
{
    let n = ts.len() as int;
    let t0 = int_text(ts[0] as int);
    let md = mids(ts, n);
    let v = seq!['['] + t0 + seq![','] + md + seq![']'];
    crate::text::lemma_int_text_chars(ts[0] as int);
    crate::text::lemma_int_text_chars(ts[n - 1] as int);
    lemma_trim_ws_id(v);
    let x = t0 + seq![','] + md + seq![']'];
    assert(v.drop_first() =~= x);
    assert(x[0] == t0[0]);
    assert(trim_start_char(x, '[') == x);
    assert(trim_start_char(v, '[') == x);
    let inner = t0 + seq![','] + md;
    assert(x.drop_last() =~= inner);
    assert(md.last() == int_text(ts[n - 1] as int).last());
    assert(inner.last() == md.last());
    assert(trim_end_char(inner, ']') == inner);
    assert(trim_end_char(x, ']') == inner);
}

/// The pieces of `t0,,t1,…` are the tile texts with one empty piece.
proof fn lemma_tile_pieces(ts: Seq<i32>)
    requires
        ts.len() >= 2,
    ensures
        split_spec(int_text(ts[0] as int) + seq![','] + mids(ts, ts.len() as int), ',')
            == seq![int_text(ts[0] as int), Seq::<char>::empty()] + tile_texts(ts.subrange(1, ts.len() as int)),
{
    let n = ts.len() as int;
    let t0 = int_text(ts[0] as int);
    let md = mids(ts, n);
    let tail = ts.subrange(1, n);
    lemma_mids(ts, n);
    crate::text::lemma_split_concat(t0, md, ',');
    lemma_int_excludes(ts[0] as int, ',');
    crate::text::lemma_split_none(t0, ',');
    assert(md =~= Seq::<char>::empty() + seq![','] + join_ints(tail));
    crate::text::lemma_split_concat(Seq::<char>::empty(), join_ints(tail), ',');
    crate::text::lemma_split_none(Seq::<char>::empty(), ',');
    lemma_split_join(Seq::<char>::empty(), tail);
    assert(Seq::<char>::empty() + join_ints(tail) =~= join_ints(tail));
    assert(Seq::<char>::empty() + int_text(tail[0] as int) =~= int_text(tail[0] as int));
    let texts = tile_texts(tail);
    assert(seq![int_text(tail[0] as int)] + Seq::new((tail.len() - 1) as nat, |i: int| int_text(tail[i + 1] as int)) =~= texts);
    assert(split_spec(t0 + seq![','] + md, ',') =~= seq![t0, Seq::<char>::empty()] + texts);
}

/// The array value `[t0,,t1,…]` gathered by the reader gives the tiles back.
proof fn lemma_tile_list(ts: Seq<i32>)
    requires
        ts.len() >= 2,
    ensures
        tile_list(seq!['['] + int_text(ts[0] as int) + seq![','] + mids(ts, ts.len() as int) + seq![']']) == ts,
{
    let n = ts.len() as int;
    let t0 = int_text(ts[0] as int);
    let tail = ts.subrange(1, n);
    lemma_tile_list_inner(ts);
    lemma_tile_pieces(ts);
    let head = seq![t0, Seq::<char>::empty()];
    let texts = tile_texts(tail);
    lemma_trimmed_concat(head, texts, texts.len() as int);
    lemma_trimmed_texts(tail, tail.len() as int);
    assert(tail.take(tail.len() as int) =~= tail);
    crate::text::lemma_int_text_chars(ts[0] as int);
    lemma_trim_ws_id(t0);
    crate::text::lemma_int_text_parse(ts[0] as int, i32::MIN as int, i32::MAX as int);
    assert(trim_ws(Seq::<char>::empty()) == Seq::<char>::empty());
    assert(head[0] == t0 && head[1] == Seq::<char>::empty());
    assert(trimmed_ints(head, 0) == Seq::<i32>::empty());
    assert(parse_int_spec(Seq::<char>::empty(), true, i32::MIN as int, i32::MAX as int).is_none());
    assert(trimmed_ints(head, 1) =~= seq![ts[0]]);
    assert(trimmed_ints(head, 2) =~= seq![ts[0]]);
    assert(seq![ts[0]] + tail =~= ts);
}

/// Reading the pieces of the tile array before its last one: the text
/// gathered so far.
proof fn lemma_tiles_mid(m: MeldView, ts: Seq<i32>, segs: Seq<Seq<char>>, k: int)
    requires
        ts.len() >= 2,
        segs.len() == ts.len(),
        segs[0] == tiles_head() + int_text(ts[0] as int),
        forall|i: int| 1 <= i <= ts.len() - 2 ==> segs[i] == int_text(ts[i] as int),
        1 <= k <= ts.len() - 1,
    ensures
        read_segs((m, Seq::empty()), segs, k) == (m, tiles_head() + int_text(ts[0] as int) + seq![','] + mids(ts, k)),
    decreases k,
{
    reveal_strlit("tiles");
    let head = tiles_head();
    assert(head =~= seq!['"', 't', 'i', 'l', 'e', 's', '"', ':', '[']);
    if k == 1 {
        let s0 = segs[0];
        assert(head[8] == '[');
        lemma_concat_contains(head, int_text(ts[0] as int), '[');
        assert(!head.contains(']'));
        lemma_int_excludes(ts[0] as int, ']');
        lemma_concat_excludes(head, int_text(ts[0] as int), ']');
        assert(read_segs((m, Seq::empty()), segs, 0) == (m, Seq::<char>::empty()));
        assert(s0.push(',') =~= head + int_text(ts[0] as int) + seq![','] + mids(ts, 1));
    } else {
        lemma_tiles_mid(m, ts, segs, k - 1);
        let t = int_text(ts[k - 1] as int);
        assert(segs[k - 1] == t);
        lemma_int_excludes(ts[k - 1] as int, '[');
        lemma_int_excludes(ts[k - 1] as int, ']');
        let cur = head + int_text(ts[0] as int) + seq![','] + mids(ts, k - 1);
        assert(cur.len() > 0);
        assert(cur.push(',') + t =~= head + int_text(ts[0] as int) + seq![','] + mids(ts, k));
    }
}

/// Reading the `tiles` field of an empty array changes nothing.
proof fn lemma_tiles_fold_empty(m: MeldView)
    requires
        m.tiles == Seq::<i32>::empty(),
    ensures
        ({
            let segs = split_spec(field("tiles"@, seq!['['] + join_ints(Seq::<i32>::empty()) + seq![']']), ',');
            read_segs((m, Seq::empty()), segs, segs.len() as int) == (m, Seq::<char>::empty())
        }),
{
    reveal_strlit("tiles");
    lemma_keys();
    let ts = Seq::<i32>::empty();
    let s1 = field("tiles"@, seq!['['] + join_ints(ts) + seq![']']);
    let segs = split_spec(s1, ',');
    assert(join_ints(ts) == Seq::<char>::empty());
    assert(s1 =~= seq!['"', 't', 'i', 'l', 'e', 's', '"', ':', '[', ']']);
    assert(!s1.contains(','));
    crate::text::lemma_split_none(s1, ',');
    assert(s1.contains('[')) by {
        assert(s1[8] == '[');
    }
    assert(s1.contains(']')) by {
        assert(s1[9] == ']');
    }
    lemma_colon_field("tiles"@, seq!['['] + join_ints(ts) + seq![']']);
    lemma_unquote_quoted("tiles"@);
    assert(read_segs((m, Seq::empty()), segs, 0) == (m, Seq::<char>::empty()));
}

/// The pieces of a `tiles` field of at least two tiles.
proof fn lemma_tiles_segs(ts: Seq<i32>)
    requires
        ts.len() >= 2,
    ensures
        ({
            let segs = split_spec(field("tiles"@, seq!['['] + join_ints(ts) + seq![']']), ',');
            &&& segs.len() == ts.len()
            &&& segs[0] == tiles_head() + int_text(ts[0] as int)
            &&& forall|i: int| 1 <= i <= ts.len() - 2 ==> segs[i] == int_text(ts[i] as int)
            &&& segs[ts.len() - 1] == int_text(ts[ts.len() - 1] as int) + seq![']']
        }),
{
    reveal_strlit("tiles");
    let head = tiles_head();
    assert(head =~= seq!['"', 't', 'i', 'l', 'e', 's', '"', ':', '[']);
    assert(!head.contains(','));
    let s1 = field("tiles"@, seq!['['] + join_ints(ts) + seq![']']);
    let segs = split_spec(s1, ',');
    let n = ts.len() as int;
    let init = ts.drop_last();
    let tl = int_text(ts[n - 1] as int);
    assert(s1 =~= (head + join_ints(init)) + seq![','] + (tl + seq![']']));
    crate::text::lemma_split_concat(head + join_ints(init), tl + seq![']'], ',');
    lemma_split_join(head, init);
    lemma_int_excludes(ts[n - 1] as int, ',');
    assert(!seq![']'].contains(','));
    lemma_concat_excludes(tl, seq![']'], ',');
    crate::text::lemma_split_none(tl + seq![']'], ',');
    assert(init[0] == ts[0]);
    assert forall|i: int| 1 <= i <= n - 2 implies segs[i] == int_text(ts[i] as int) by {
        assert(init[i] == ts[i]);
    }
}

/// Reading the pieces of a `tiles` field of at least two tiles gives them.
#[verifier::rlimit(40)]
proof fn lemma_tiles_fold_many(m: MeldView, ts: Seq<i32>)
    requires
        ts.len() >= 2,
    ensures
        ({
            let segs = split_spec(field("tiles"@, seq!['['] + join_ints(ts) + seq![']']), ',');
            read_segs((m, Seq::empty()), segs, segs.len() as int) == (MeldView { tiles: ts, ..m }, Seq::<char>::empty())
        }),
{
    reveal_strlit("tiles");
    let head = tiles_head();
    assert(head =~= seq!['"', 't', 'i', 'l', 'e', 's', '"', ':', '[']);
    let segs = split_spec(field("tiles"@, seq!['['] + join_ints(ts) + seq![']']), ',');
    let n = ts.len() as int;
    let t0 = int_text(ts[0] as int);
    let tl = int_text(ts[n - 1] as int);
    lemma_tiles_segs(ts);
    lemma_tiles_mid(m, ts, segs, n - 1);
    let cur = head + t0 + seq![','] + mids(ts, n - 1);
    let seg = tl + seq![']'];
    lemma_int_excludes(ts[n - 1] as int, '[');
    assert(!seq![']'].contains('['));
    lemma_concat_excludes(tl, seq![']'], '[');
    assert(seg.contains(']')) by {
        assert(seg[seg.len() - 1] == ']');
    }
    assert(cur.len() > 0);
    let cur2 = cur.push(',') + seg;
    let v = seq!['['] + t0 + seq![','] + mids(ts, n) + seq![']'];
    assert(cur2 =~= quoted("tiles"@) + seq![':'] + v);
    lemma_keys();
    lemma_plain_excludes("tiles"@, ':');
    lemma_concat_excludes(seq!['"'], "tiles"@, ':');
    lemma_concat_excludes(seq!['"'] + "tiles"@, seq!['"'], ':');
    lemma_first_index_at(quoted("tiles"@), ':', v);
    assert(cur2.take(quoted("tiles"@).len() as int) =~= quoted("tiles"@));
    assert(cur2.skip((quoted("tiles"@).len() + 1) as int) =~= v);
    lemma_tile_list(ts);
    assert(seg_step((m, cur), seg) == (MeldView { tiles: ts, ..m }, Seq::<char>::empty()));
}

/// The fields of a meld's text, in order.
pub open spec fn body_fields(m: MeldView) -> (Seq<char>, Seq<char>, Seq<char>, Seq<char>, Seq<char>, Seq<char>) {
    (
        field("type"@, quoted(m.meld_type)),
        field("tiles"@, seq!['['] + join_ints(m.tiles) + seq![']']),
        field("called"@, int_text(m.called_tile as int)),
        field("from"@, int_text(m.from_player as int)),
        field("discard_n"@, int_text(m.discard_n as int)),
        field("pos"@, int_text(m.called_pos as int)),
    )
}

proof fn lemma_field_no_comma(k: Seq<char>, v: Seq<char>)
    requires
        plain_text(k),
        !v.contains(','),
    ensures
        !field(k, v).contains(','),
{
    lemma_plain_excludes(k, ',');
    lemma_concat_excludes(seq!['"'], k, ',');
    lemma_concat_excludes(seq!['"'] + k, seq!['"', ':'], ',');
    lemma_concat_excludes(seq!['"'] + k + seq!['"', ':'], v, ',');
}

/// Reading the fields of a meld's text gives the meld.
#[verifier::rlimit(40)]
proof fn lemma_body_read(m: MeldView)
    requires
        plain_meld(m),
    ensures
        ({
            let segs = split_spec(meld_body(m), ',');
            read_segs((blank_meld(), Seq::empty()), segs, segs.len() as int) == (m, Seq::<char>::empty())
        }),
{
    lemma_keys();
    let (s0, s1, s2, s3, s4, s5) = body_fields(m);
    let t = m.meld_type;
    assert(plain_text(t));
    // the pieces
    lemma_plain_excludes(t, ',');
    lemma_concat_excludes(seq!['"'], t, ',');
    lemma_concat_excludes(seq!['"'] + t, seq!['"'], ',');
    lemma_field_no_comma("type"@, quoted(t));
    lemma_int_excludes(m.called_tile as int, ',');
    lemma_int_excludes(m.from_player as int, ',');
    lemma_int_excludes(m.discard_n as int, ',');
    lemma_int_excludes(m.called_pos as int, ',');
    lemma_field_no_comma("called"@, int_text(m.called_tile as int));
    lemma_field_no_comma("from"@, int_text(m.from_player as int));
    lemma_field_no_comma("discard_n"@, int_text(m.discard_n as int));
    lemma_field_no_comma("pos"@, int_text(m.called_pos as int));
    crate::text::lemma_split_none(s0, ',');
    crate::text::lemma_split_none(s2, ',');
    crate::text::lemma_split_none(s3, ',');
    crate::text::lemma_split_none(s4, ',');
    crate::text::lemma_split_none(s5, ',');
    crate::text::lemma_split_concat(s4, s5, ',');
    crate::text::lemma_split_concat(s3, s4 + seq![','] + s5, ',');
    crate::text::lemma_split_concat(s2, s3 + seq![','] + (s4 + seq![','] + s5), ',');
    crate::text::lemma_split_concat(s1, s2 + seq![','] + (s3 + seq![','] + (s4 + seq![','] + s5)), ',');
    crate::text::lemma_split_concat(s0, s1 + seq![','] + (s2 + seq![','] + (s3 + seq![','] + (s4 + seq![','] + s5))), ',');
    let p1 = split_spec(s1, ',');
    let rest = seq![s2, s3, s4, s5];
    let segs = split_spec(meld_body(m), ',');
    assert(segs =~= seq![s0] + (p1 + rest));
    // the type
    let acc0 = (blank_meld(), Seq::<char>::empty());
    lemma_plain_excludes(t, '[');
    lemma_concat_excludes(seq!['"'], t, '[');
    lemma_concat_excludes(seq!['"'] + t, seq!['"'], '[');
    lemma_field_step(blank_meld(), "type"@, quoted(t));
    lemma_unquote_quoted("type"@);
    lemma_unquote_quoted(t);
    let m1 = MeldView { meld_type: t, ..blank_meld() };
    assert(seq![s0][0] == s0);
    assert(seg_step(acc0, s0) == (m1, Seq::<char>::empty()));
    assert(read_segs(acc0, seq![s0], 0) == acc0);
    assert(read_segs(acc0, seq![s0], 1) == (m1, Seq::<char>::empty()));
    lemma_read_concat(acc0, seq![s0], p1 + rest, (p1 + rest).len() as int);
    // the tiles
    let m2 = MeldView { tiles: m.tiles, ..m1 };
    if m.tiles.len() == 0 {
        lemma_tiles_fold_empty(m1);
        assert(m.tiles =~= Seq::<i32>::empty());
        assert(m2 == m1);
    } else {
        lemma_tiles_fold_many(m1, m.tiles);
    }
    assert(read_segs((m1, Seq::<char>::empty()), p1, p1.len() as int) == (m2, Seq::<char>::empty()));
    lemma_read_concat((m1, Seq::<char>::empty()), p1, rest, 4);
    // the numbers
    lemma_int_excludes(m.called_tile as int, '[');
    lemma_int_excludes(m.from_player as int, '[');
    lemma_int_excludes(m.discard_n as int, '[');
    lemma_int_excludes(m.called_pos as int, '[');
    lemma_unquote_quoted("called"@);
    lemma_unquote_quoted("from"@);
    lemma_unquote_quoted("discard_n"@);
    lemma_unquote_quoted("pos"@);
    lemma_unquote_int(m.called_tile as int);
    lemma_unquote_int(m.from_player as int);
    lemma_unquote_int(m.discard_n as int);
    lemma_unquote_int(m.called_pos as int);
    crate::text::lemma_int_text_parse(m.called_tile as int, i32::MIN as int, i32::MAX as int);
    crate::text::lemma_int_text_parse(m.from_player as int, i8::MIN as int, i8::MAX as int);
    crate::text::lemma_int_text_parse(m.discard_n as int, i32::MIN as int, i32::MAX as int);
    crate::text::lemma_int_text_parse(m.called_pos as int, i8::MIN as int, i8::MAX as int);
    let m3 = MeldView { called_tile: m.called_tile, ..m2 };
    let m4 = MeldView { from_player: m.from_player, ..m3 };
    let m5 = MeldView { discard_n: m.discard_n, ..m4 };
    lemma_field_step(m2, "called"@, int_text(m.called_tile as int));
    lemma_field_step(m3, "from"@, int_text(m.from_player as int));
    lemma_field_step(m4, "discard_n"@, int_text(m.discard_n as int));
    lemma_field_step(m5, "pos"@, int_text(m.called_pos as int));
    assert(rest[0] == s2 && rest[1] == s3 && rest[2] == s4 && rest[3] == s5);
    assert(read_segs((m2, Seq::<char>::empty()), rest, 0) == (m2, Seq::<char>::empty()));
    assert(read_segs((m2, Seq::<char>::empty()), rest, 1) == (m3, Seq::<char>::empty()));
    assert(read_segs((m2, Seq::<char>::empty()), rest, 2) == (m4, Seq::<char>::empty()));
    assert(read_segs((m2, Seq::<char>::empty()), rest, 3) == (m5, Seq::<char>::empty()));
    assert(read_segs((m2, Seq::<char>::empty()), rest, 4) == (m, Seq::<char>::empty()));
}

/// The object bodies joined front to back with `},{`.
pub open spec fn sep_join(bs: Seq<Seq<char>>) -> Seq<char>
    decreases bs.len(),
{
    if bs.len() <= 1 {
        if bs.len() == 1 { bs[0] } else { Seq::empty() }
    } else {
        bs[0] + "},{"@ + sep_join(bs.drop_first())
    }
}

proof fn lemma_sep_join_push(bs: Seq<Seq<char>>, b: Seq<char>)
    requires
        bs.len() >= 1,
    ensures
        sep_join(bs.push(b)) == sep_join(bs) + "},{"@ + b,
    decreases bs.len(),
{
    let bp = bs.push(b);
    assert(bp[0] == bs[0]);
    if bs.len() == 1 {
        assert(bp.drop_first() =~= seq![b]);
        assert(sep_join(seq![b]) == b);
        assert(sep_join(bp) == bs[0] + "},{"@ + b);
        assert(sep_join(bs) == bs[0]);
    } else {
        lemma_sep_join_push(bs.drop_first(), b);
        assert(bp.drop_first() =~= bs.drop_first().push(b));
        assert(sep_join(bp) == bs[0] + "},{"@ + (sep_join(bs.drop_first()) + "},{"@ + b));
        assert(sep_join(bp) =~= sep_join(bs) + "},{"@ + b);
    }
}

/// The object texts joined with commas are the bodies joined with `},{`,
/// in one pair of braces.
proof fn lemma_join_melds(ms: Seq<MeldView>)
    requires
        ms.len() >= 1,
    ensures
        join_melds(ms) == seq!['{'] + sep_join(ms.map_values(|m: MeldView| meld_body(m))) + seq!['}'],
    decreases ms.len(),
{
    reveal_strlit("{");
    reveal_strlit("}");
    reveal_strlit("},{");
    assert("{"@ =~= seq!['{']);
    assert("}"@ =~= seq!['}']);
    assert("},{"@ =~= seq!['}', ',', '{']);
    let bs = ms.map_values(|m: MeldView| meld_body(m));
    if ms.len() == 1 {
        assert(join_melds(ms) == meld_text(ms[0]));
    } else {
        let init = ms.drop_last();
        lemma_join_melds(init);
        let bi = init.map_values(|m: MeldView| meld_body(m));
        assert(bs =~= bi.push(meld_body(ms.last())));
        lemma_sep_join_push(bi, meld_body(ms.last()));
        assert(join_melds(ms) =~= seq!['{'] + sep_join(bs) + seq!['}']);
    }
}

/// The pieces of a list: the bodies, the first with its opening brace, the
/// last with its closing one.
pub open spec fn list_pieces(bs: Seq<Seq<char>>, prefix: Seq<char>) -> Seq<Seq<char>> {
    Seq::new(bs.len(), |i: int| (if i == 0 { prefix } else { Seq::<char>::empty() }) + bs[i]
        + (if i == bs.len() - 1 { seq!['}'] } else { Seq::<char>::empty() }))
}

proof fn lemma_split_list(bs: Seq<Seq<char>>, prefix: Seq<char>)
    requires
        bs.len() >= 1,
        !prefix.contains('}'),
        forall|i: int| 0 <= i < bs.len() ==> !(#[trigger] bs[i]).contains('}'),
    ensures
        split_pat(prefix + sep_join(bs) + seq!['}'], "},{"@) == list_pieces(bs, prefix),
    decreases bs.len(),
{
    reveal_strlit("},{");
    assert("},{"@ =~= seq!['}', ',', '{']);
    let pat = "},{"@;
    if bs.len() == 1 {
        let y = prefix + bs[0] + seq!['}'];
        assert(prefix + sep_join(bs) + seq!['}'] =~= y);
        assert forall|k: int| 0 <= k < y.len() - 1 implies y[k] != pat[0] by {
            if k < prefix.len() {
                assert(y[k] == prefix[k]);
            } else {
                assert(y[k] == bs[0][k - prefix.len()]);
            }
        }
        lemma_split_pat_single(y, pat, 0);
        assert(list_pieces(bs, prefix) =~= seq![y]);
    } else {
        let x = prefix + bs[0];
        let rest = bs.drop_first();
        lemma_concat_excludes(prefix, bs[0], '}');
        assert(prefix + sep_join(bs) + seq!['}'] =~= x + pat + (sep_join(rest) + seq!['}']));
        lemma_split_pat_head(x, pat, sep_join(rest) + seq!['}']);
        assert(!Seq::<char>::empty().contains('}'));
        assert forall|i: int| 0 <= i < rest.len() implies !(#[trigger] rest[i]).contains('}') by {
            assert(rest[i] == bs[i + 1]);
        }
        lemma_split_list(rest, Seq::<char>::empty());
        assert(Seq::<char>::empty() + sep_join(rest) + seq!['}'] =~= sep_join(rest) + seq!['}']);
        assert(seq![x] + list_pieces(rest, Seq::<char>::empty()) =~= list_pieces(bs, prefix));
    }
}

proof fn lemma_field_no_brace(k: Seq<char>, v: Seq<char>)
    requires
        plain_text(k),
        !v.contains('}'),
    ensures
        !field(k, v).contains('}'),
{
    lemma_plain_excludes(k, '}');
    lemma_concat_excludes(seq!['"'], k, '}');
    lemma_concat_excludes(seq!['"'] + k, seq!['"', ':'], '}');
    lemma_concat_excludes(seq!['"'] + k + seq!['"', ':'], v, '}');
}

/// A meld's body has no closing brace, starts with a quote and ends with a
/// digit.
proof fn lemma_body_ends(m: MeldView)
    requires
        plain_meld(m),
    ensures
        !meld_body(m).contains('}'),
        meld_body(m).len() > 0,
        meld_body(m)[0] == '"',
        crate::text::is_digit(meld_body(m).last()),
{
    lemma_keys();
    let (s0, s1, s2, s3, s4, s5) = body_fields(m);
    let t = m.meld_type;
    lemma_plain_excludes(t, '}');
    lemma_concat_excludes(seq!['"'], t, '}');
    lemma_concat_excludes(seq!['"'] + t, seq!['"'], '}');
    lemma_field_no_brace("type"@, quoted(t));
    let j = join_ints(m.tiles);
    assert(!j.contains('}')) by {
        lemma_join_ints_chars(m.tiles);
    }
    lemma_concat_excludes(seq!['['], j, '}');
    lemma_concat_excludes(seq!['['] + j, seq![']'], '}');
    lemma_field_no_brace("tiles"@, seq!['['] + j + seq![']']);
    lemma_int_excludes(m.called_tile as int, '}');
    lemma_int_excludes(m.from_player as int, '}');
    lemma_int_excludes(m.discard_n as int, '}');
    lemma_int_excludes(m.called_pos as int, '}');
    lemma_field_no_brace("called"@, int_text(m.called_tile as int));
    lemma_field_no_brace("from"@, int_text(m.from_player as int));
    lemma_field_no_brace("discard_n"@, int_text(m.discard_n as int));
    lemma_field_no_brace("pos"@, int_text(m.called_pos as int));
    let c = seq![','];
    lemma_concat_excludes(s4, c, '}');
    lemma_concat_excludes(s4 + c, s5, '}');
    lemma_concat_excludes(s3, c, '}');
    lemma_concat_excludes(s3 + c, s4 + c + s5, '}');
    lemma_concat_excludes(s2, c, '}');
    lemma_concat_excludes(s2 + c, s3 + c + (s4 + c + s5), '}');
    lemma_concat_excludes(s1, c, '}');
    lemma_concat_excludes(s1 + c, s2 + c + (s3 + c + (s4 + c + s5)), '}');
    lemma_concat_excludes(s0, c, '}');
    lemma_concat_excludes(s0 + c, s1 + c + (s2 + c + (s3 + c + (s4 + c + s5))), '}');
    crate::text::lemma_int_text_chars(m.called_pos as int);
    assert(meld_body(m)[0] == s0[0]);
    assert(meld_body(m).last() == s5.last());
    assert(s5.last() == int_text(m.called_pos as int).last());
}

proof fn lemma_join_ints_chars(ts: Seq<i32>)
    ensures
        !join_ints(ts).contains('}'),
    decreases ts.len(),
{
    if ts.len() == 1 {
        lemma_int_excludes(ts[0] as int, '}');
    } else if ts.len() > 1 {
        lemma_join_ints_chars(ts.drop_last());
        lemma_int_excludes(ts.last() as int, '}');
        lemma_concat_excludes(join_ints(ts.drop_last()), seq![','], '}');
        lemma_concat_excludes(join_ints(ts.drop_last()) + seq![','], int_text(ts.last() as int), '}');
    }
}

/// A piece of the list gives back its meld.
proof fn lemma_part_meld(m: MeldView, prefix: Seq<char>, suffix: Seq<char>)
    requires
        plain_meld(m),
        prefix == Seq::<char>::empty() || prefix == seq!['{'],
        suffix == Seq::<char>::empty() || suffix == seq!['}'],
    ensures
        part_meld(prefix + meld_body(m) + suffix) == m,
{
    lemma_body_ends(m);
    let b = meld_body(m);
    let part = prefix + b + suffix;
    assert(part[0] == '{' || part[0] == '"') by {
        if prefix.len() == 0 {
            assert(part[0] == b[0]);
        }
    }
    assert(part.last() == '}' || crate::text::is_digit(part.last())) by {
        if suffix.len() == 0 {
            assert(part.last() == b.last());
        }
    }
    lemma_trim_ws_id(part);
    let bs = b + suffix;
    if prefix.len() == 0 {
        assert(part =~= bs);
        assert(trim_start_char(part, '{') == bs);
    } else {
        assert(part.drop_first() =~= bs);
        assert(bs[0] == b[0]);
        assert(trim_start_char(bs, '{') == bs);
        assert(trim_start_char(part, '{') == bs);
    }
    if suffix.len() == 0 {
        assert(bs =~= b);
        assert(trim_end_char(bs, '}') == b);
    } else {
        assert(bs.drop_last() =~= b);
        assert(trim_end_char(b, '}') == b);
        assert(trim_end_char(bs, '}') == b);
    }
    lemma_body_read(m);
}

/// A list of melds whose types hold no JSON punctuation, and with no
/// one-tile array, reads back as
/// itself from its JSON text: what `json_melds` writes, `parse_meld_json`
/// gives back.
pub proof fn law_json_round_trip(ms: Seq<MeldView>)
    requires
        forall|i: int| 0 <= i < ms.len() ==> plain_meld(#[trigger] ms[i]),
    ensures
        json_readable(json_text(ms)),
        read_json(json_text(ms)) == ms,
{
    reveal_strlit("[]");
    reveal_strlit("[");
    reveal_strlit("]");
    assert("[]"@ =~= seq!['[', ']']);
    if ms.len() == 0 {
        lemma_trim_ws_id("[]"@);
    } else {
        let s = json_text(ms);
        let j = join_melds(ms);
        lemma_join_melds(ms);
        let bs = ms.map_values(|m: MeldView| meld_body(m));
        assert(s =~= seq!['['] + j + seq![']']);
        lemma_trim_ws_id(s);
        assert(s.len() > 2);
        assert(s != "[]"@);
        assert(s.subrange(1, s.len() - 1) =~= j);
        assert forall|i: int| 0 <= i < bs.len() implies !(#[trigger] bs[i]).contains('}') by {
            lemma_body_ends(ms[i]);
        }
        assert(!seq!['{'].contains('}'));
        lemma_split_list(bs, seq!['{']);
        let pieces = list_pieces(bs, seq!['{']);
        assert forall|i: int| 0 <= i < ms.len() implies part_meld(#[trigger] pieces[i]) == ms[i] by {
            let pre = if i == 0 { seq!['{'] } else { Seq::<char>::empty() };
            let suf = if i == bs.len() - 1 { seq!['}'] } else { Seq::<char>::empty() };
            assert(pieces[i] == pre + bs[i] + suf);
            lemma_part_meld(ms[i], pre, suf);
        }
        assert(pieces.map_values(|p: Seq<char>| part_meld(p)) =~= ms);
    }
}

} // verus!
