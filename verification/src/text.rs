//! Character-level text utilities: case folding, lexicographic order,
//! prefix/suffix/substring tests, and the normalization passes that the
//! manifest exports need.
use vstd::prelude::*;

verus! {

use vstd::string::StrSliceExecFns;
use vstd::string::StringExecFns;

/// ASCII case folding of one character: upper-case letters map to their
/// lower-case forms, everything else is unchanged.
pub open spec fn fold_char(c: char) -> char {
    if 'A' <= c && c <= 'Z' {
        ((c as u32) + 32) as char
    } else {
        c
    }
}

/// ASCII case folding of a whole text value.
pub open spec fn fold_case(s: Seq<char>) -> Seq<char> {
    s.map_values(|c: char| fold_char(c))
}

/// The folded code point of a character.
fn fold_code(c: char) -> (r: u32)
    ensures
        r == fold_char(c) as u32,
{
    let x = c as u32;
    if 65 <= x && x <= 90 {
        x + 32
    } else {
        x
    }
}

/// Case-insensitive equality of two text values, the comparison the
/// relational indices use for identity keys.
pub fn eq_ignore_case(a: &str, b: &str) -> (r: bool)
    ensures
        r == (fold_case(a@) == fold_case(b@)),
{
    let la = a.unicode_len();
    let lb = b.unicode_len();
    if la != lb {
        assert(fold_case(a@).len() != fold_case(b@).len());
        return false;
    }
    let mut i: usize = 0;
    while i < la
        invariant
            la == a@.len(),
            la == b@.len(),
            i <= la,
            forall|j: int| 0 <= j < i ==> fold_char(a@[j]) == fold_char(b@[j]),
        decreases la - i,
    {
        let ca = a.get_char(i);
        let cb = b.get_char(i);
        if fold_code(ca) != fold_code(cb) {
            assert(fold_case(a@)[i as int] != fold_case(b@)[i as int]);
            return false;
        }
        i = i + 1;
    }
    assert(fold_case(a@) =~= fold_case(b@));
    true
}

/// Exact equality of two text slices.
pub fn str_eq(a: &str, b: &str) -> (r: bool)
    ensures
        r == (a@ == b@),
{
    let la = a.unicode_len();
    let lb = b.unicode_len();
    if la != lb {
        return false;
    }
    let mut i: usize = 0;
    while i < la
        invariant
            la == a@.len(),
            la == b@.len(),
            i <= la,
            forall|j: int| 0 <= j < i ==> a@[j] == b@[j],
        decreases la - i,
    {
        if a.get_char(i) != b.get_char(i) {
            return false;
        }
        i = i + 1;
    }
    assert(a@ =~= b@);
    true
}

/// Lexicographic order on text values, by code point.
pub open spec fn lex_le(a: Seq<char>, b: Seq<char>) -> bool
    decreases a.len(),
{
    if a.len() == 0 {
        true
    } else if b.len() == 0 {
        false
    } else if a[0] != b[0] {
        a[0] < b[0]
    } else {
        lex_le(a.drop_first(), b.drop_first())
    }
}

/// The lexicographic order relates every pair of text values.
pub proof fn lemma_lex_total(a: Seq<char>, b: Seq<char>)
    ensures
        lex_le(a, b) || lex_le(b, a),
    decreases a.len(),
{
    if a.len() == 0 {
    } else if b.len() == 0 {
    } else if a[0] != b[0] {
    } else {
        lemma_lex_total(a.drop_first(), b.drop_first());
    }
}

/// Two text values below one another are equal.
pub proof fn lemma_lex_antisym(a: Seq<char>, b: Seq<char>)
    requires
        lex_le(a, b),
        lex_le(b, a),
    ensures
        a == b,
    decreases a.len(),
{
    if a.len() == 0 {
        assert(b.len() == 0);
        assert(a =~= b);
    } else {
        assert(b.len() != 0);
        assert(a[0] == b[0]);
        lemma_lex_antisym(a.drop_first(), b.drop_first());
        let ad = a.drop_first();
        let bd = b.drop_first();
        assert(ad == bd);
        assert(ad.len() == bd.len());
        assert(a.len() == ad.len() + 1 && b.len() == bd.len() + 1);
        assert forall|i: int| 0 <= i < a.len() implies a[i] == b[i] by {
            if i > 0 {
                assert(ad[i - 1] == bd[i - 1]);
            }
        }
        assert(a =~= b);
    }
}

/// The lexicographic order is transitive.
pub proof fn lemma_lex_trans(a: Seq<char>, b: Seq<char>, c: Seq<char>)
    requires
        lex_le(a, b),
        lex_le(b, c),
    ensures
        lex_le(a, c),
    decreases a.len(),
{
    if a.len() != 0 && b.len() != 0 && c.len() != 0 {
        if a[0] == b[0] && b[0] == c[0] {
            lemma_lex_trans(a.drop_first(), b.drop_first(), c.drop_first());
        }
    }
}

/// Decides the lexicographic order on two text slices.
pub fn str_le(a: &str, b: &str) -> (r: bool)
    ensures
        r == lex_le(a@, b@),
{
    let la = a.unicode_len();
    let lb = b.unicode_len();
    let mut i: usize = 0;
    assert(a@.skip(0) =~= a@);
    assert(b@.skip(0) =~= b@);
    loop
        invariant
            la == a@.len(),
            lb == b@.len(),
            i <= la,
            i <= lb,
            lex_le(a@, b@) == lex_le(a@.skip(i as int), b@.skip(i as int)),
        decreases la - i,
    {
        if i == la {
            assert(a@.skip(i as int).len() == 0);
            return true;
        }
        if i == lb {
            assert(b@.skip(i as int).len() == 0);
            assert(a@.skip(i as int).len() != 0);
            return false;
        }
        let ca = a.get_char(i);
        let cb = b.get_char(i);
        assert(a@.skip(i as int)[0] == ca && b@.skip(i as int)[0] == cb);
        if ca != cb {
            return ca < cb;
        }
        assert(a@.skip(i as int).drop_first() =~= a@.skip(i + 1));
        assert(b@.skip(i as int).drop_first() =~= b@.skip(i + 1));
        i = i + 1;
    }
}

/// One text value starts with another.
pub open spec fn has_prefix(s: Seq<char>, p: Seq<char>) -> bool {
    p.len() <= s.len() && s.subrange(0, p.len() as int) == p
}

/// One text value ends with another.
pub open spec fn has_suffix(s: Seq<char>, p: Seq<char>) -> bool {
    p.len() <= s.len() && s.subrange(s.len() - p.len(), s.len() as int) == p
}

/// One text value occurs inside another at a given position.
pub open spec fn occurs_at(s: Seq<char>, n: Seq<char>, i: int) -> bool {
    0 <= i && i + n.len() <= s.len() && s.subrange(i, i + n.len()) == n
}

/// One text value occurs somewhere inside another.
pub open spec fn contains_seq(s: Seq<char>, n: Seq<char>) -> bool {
    exists|i: int| occurs_at(s, n, i)
}

/// Decides whether a text slice starts with a given prefix.
pub fn starts_with_str(s: &str, p: &str) -> (r: bool)
    ensures
        r == has_prefix(s@, p@),
{
    let ls = s.unicode_len();
    let lp = p.unicode_len();
    if lp > ls {
        return false;
    }
    let mut i: usize = 0;
    while i < lp
        invariant
            ls == s@.len(),
            lp == p@.len(),
            lp <= ls,
            i <= lp,
            forall|j: int| 0 <= j < i ==> s@[j] == p@[j],
        decreases lp - i,
    {
        if s.get_char(i) != p.get_char(i) {
            assert(s@.subrange(0, p@.len() as int)[i as int] != p@[i as int]);
            return false;
        }
        i = i + 1;
    }
    assert(s@.subrange(0, p@.len() as int) =~= p@);
    true
}

/// Decides whether a text slice ends with a given suffix.
pub fn ends_with_str(s: &str, p: &str) -> (r: bool)
    ensures
        r == has_suffix(s@, p@),
{
    let ls = s.unicode_len();
    let lp = p.unicode_len();
    if lp > ls {
        return false;
    }
    let off = ls - lp;
    let mut i: usize = 0;
    while i < lp
        invariant
            ls == s@.len(),
            lp == p@.len(),
            lp <= ls,
            off == ls - lp,
            i <= lp,
            forall|j: int| 0 <= j < i ==> s@[off + j] == p@[j],
        decreases lp - i,
    {
        if s.get_char(off + i) != p.get_char(i) {
            assert(s@.subrange(s@.len() - p@.len(), s@.len() as int)[i as int] != p@[i as int]);
            return false;
        }
        i = i + 1;
    }
    assert(s@.subrange(s@.len() - p@.len(), s@.len() as int) =~= p@);
    true
}

/// Decides whether a text slice contains a given needle anywhere.
pub fn contains_str(s: &str, n: &str) -> (r: bool)
    ensures
        r == contains_seq(s@, n@),
{
    let ls = s.unicode_len();
    let ln = n.unicode_len();
    if ln > ls {
        assert(!contains_seq(s@, n@));
        return false;
    }
    if ln == 0 {
        assert(s@.subrange(0, 0) =~= n@);
        assert(occurs_at(s@, n@, 0));
        return true;
    }
    let mut i: usize = 0;
    let stop = ls - ln;
    while i <= stop
        invariant
            ls == s@.len(),
            ln == n@.len(),
            0 < ln <= ls,
            stop == ls - ln,
            i <= stop + 1,
            forall|k: int| 0 <= k < i ==> !occurs_at(s@, n@, k),
        decreases stop + 1 - i,
    {
        let mut j: usize = 0;
        let mut hit = true;
        while j < ln
            invariant
                ls == s@.len(),
                ln == n@.len(),
                0 < ln <= ls,
                i <= ls - ln,
                j <= ln,
                hit ==> forall|k: int| 0 <= k < j ==> s@[i + k] == n@[k],
                !hit ==> !occurs_at(s@, n@, i as int),
            decreases ln - j,
        {
            if s.get_char(i + j) != n.get_char(j) {
                hit = false;
                assert(s@.subrange(i as int, i + n@.len())[j as int] != n@[j as int]);
                assert(!occurs_at(s@, n@, i as int));
                j = ln;
            } else {
                j = j + 1;
            }
        }
        if hit {
            assert(s@.subrange(i as int, i + n@.len()) =~= n@);
            assert(occurs_at(s@, n@, i as int));
            return true;
        }
        i = i + 1;
    }
    assert(forall|k: int| occurs_at(s@, n@, k) ==> 0 <= k <= s@.len() - n@.len());
    false
}

/// What remains after removing a prefix; the input unchanged when the
/// prefix is absent.
pub fn strip_prefix_str(s: &str, p: &str) -> (r: String)
    ensures
        has_prefix(s@, p@) ==> r@ == s@.skip(p@.len() as int),
        !has_prefix(s@, p@) ==> r@ == s@,
{
    if starts_with_str(s, p) {
        let ls = s.unicode_len();
        let lp = p.unicode_len();
        let rest = s.substring_char(lp, ls);
        assert(rest@ =~= s@.skip(p@.len() as int));
        rest.to_owned()
    } else {
        s.to_owned()
    }
}

/// What remains after removing a suffix; the input unchanged when the
/// suffix is absent.
pub fn strip_suffix_str(s: &str, p: &str) -> (r: String)
    ensures
        has_suffix(s@, p@) ==> r@ == s@.take(s@.len() - p@.len()),
        !has_suffix(s@, p@) ==> r@ == s@,
{
    if ends_with_str(s, p) {
        let ls = s.unicode_len();
        let lp = p.unicode_len();
        let rest = s.substring_char(0, ls - lp);
        assert(rest@ =~= s@.take(s@.len() - p@.len()));
        rest.to_owned()
    } else {
        s.to_owned()
    }
}


/// The upstream exports sometimes carry stray literal backslash-r escape
/// sequences; this removes each backslash immediately followed by the
/// letter r, scanning left to right from position `i`.
pub open spec fn unescape_cr_from(s: Seq<char>, i: int) -> Seq<char>
    decreases s.len() - i when 0 <= i <= s.len()
{
    if i >= s.len() {
        Seq::empty()
    } else if s[i] == '\\' && i + 1 < s.len() && s[i + 1] == 'r' {
        unescape_cr_from(s, i + 2)
    } else {
        seq![s[i]] + unescape_cr_from(s, i + 1)
    }
}

/// Text with every carriage-return and line-feed character removed,
/// scanning from position `i`.
pub open spec fn strip_crlf_from(s: Seq<char>, i: int) -> Seq<char>
    decreases s.len() - i when 0 <= i <= s.len()
{
    if i >= s.len() {
        Seq::empty()
    } else if s[i] == '\r' || s[i] == '\n' {
        strip_crlf_from(s, i + 1)
    } else {
        seq![s[i]] + strip_crlf_from(s, i + 1)
    }
}

/// The normal form of raw manifest text: literal backslash-r sequences
/// removed first, then every embedded line terminator.
pub open spec fn clean_text(s: Seq<char>) -> Seq<char> {
    strip_crlf_from(unescape_cr_from(s, 0), 0)
}

/// Removes each literal backslash-r escape sequence from a text slice.
fn unescape_cr(s: &str) -> (r: String)
    ensures
        r@ == unescape_cr_from(s@, 0),
{
    let ls = s.unicode_len();
    let mut out = String::new();
    let mut i: usize = 0;
    while i < ls
        invariant
            ls == s@.len(),
            i <= ls,
            out@ + unescape_cr_from(s@, i as int) == unescape_cr_from(s@, 0),
        decreases ls - i,
    {
        let c = s.get_char(i);
        if c == '\\' && i + 1 < ls && s.get_char(i + 1) == 'r' {
            i = i + 2;
        } else {
            let piece = s.substring_char(i, i + 1);
            assert(piece@ =~= seq![s@[i as int]]);
            out.append(piece);
            assert(out@ + unescape_cr_from(s@, i + 1) =~= unescape_cr_from(s@, 0));
            i = i + 1;
        }
    }
    assert(out@ =~= unescape_cr_from(s@, 0));
    out
}

/// Removes every carriage-return and line-feed character from a text slice.
fn strip_crlf(s: &str) -> (r: String)
    ensures
        r@ == strip_crlf_from(s@, 0),
{
    let ls = s.unicode_len();
    let mut out = String::new();
    let mut i: usize = 0;
    while i < ls
        invariant
            ls == s@.len(),
            i <= ls,
            out@ + strip_crlf_from(s@, i as int) == strip_crlf_from(s@, 0),
        decreases ls - i,
    {
        let c = s.get_char(i);
        if c == '\r' || c == '\n' {
            i = i + 1;
        } else {
            let piece = s.substring_char(i, i + 1);
            assert(piece@ =~= seq![s@[i as int]]);
            out.append(piece);
            assert(out@ + strip_crlf_from(s@, i + 1) =~= strip_crlf_from(s@, 0));
            i = i + 1;
        }
    }
    assert(out@ =~= strip_crlf_from(s@, 0));
    out
}

/// Brings raw manifest text into its normal form: stray literal
/// backslash-r sequences are removed first, then every embedded
/// carriage return and line feed.
pub fn normalize_manifest_text(s: &str) -> (r: String)
    ensures
        r@ == clean_text(s@),
{
    let pass1 = unescape_cr(s);
    strip_crlf(pass1.as_str())
}

/// The position of the first line feed at or after `i`, or the length of
/// the text when no line feed follows.
pub open spec fn line_end(s: Seq<char>, i: int) -> int
    decreases s.len() - i when 0 <= i <= s.len()
{
    if i >= s.len() {
        s.len() as int
    } else if s[i] == '\n' {
        i
    } else {
        line_end(s, i + 1)
    }
}

/// Position and contents of the first line feed at or after `i`.
pub proof fn lemma_line_end(s: Seq<char>, i: int)
    requires
        0 <= i <= s.len(),
    ensures
        i <= line_end(s, i) <= s.len(),
        line_end(s, i) < s.len() ==> s[line_end(s, i)] == '\n',
        forall|j: int| i <= j < line_end(s, i) ==> s[j] != '\n',
    decreases s.len() - i,
{
    if i < s.len() && s[i] != '\n' {
        lemma_line_end(s, i + 1);
    }
}

/// A line with a trailing carriage return removed.
pub open spec fn chomp_cr(l: Seq<char>) -> Seq<char> {
    if l.len() > 0 && l.last() == '\r' {
        l.drop_last()
    } else {
        l
    }
}

/// The lines of a text value from position `i` on: maximal line-feed-free
/// runs, each with a trailing carriage return removed; a trailing line
/// feed opens no further empty line.
pub open spec fn lines_from(s: Seq<char>, i: int) -> Seq<Seq<char>>
    decreases s.len() + 1 - i when 0 <= i via lines_from_decreases
{
    if i >= s.len() {
        Seq::empty()
    } else {
        seq![chomp_cr(s.subrange(i, line_end(s, i)))] + lines_from(s, line_end(s, i) + 1)
    }
}

#[via_fn]
proof fn lines_from_decreases(s: Seq<char>, i: int) {
    if 0 <= i < s.len() {
        lemma_line_end(s, i);
    }
}

/// The lines of a text value.
pub open spec fn lines_of(s: Seq<char>) -> Seq<Seq<char>> {
    lines_from(s, 0)
}

/// The position of the first line feed at or after `i`, or the end of
/// the text when no line feed follows.
fn find_line_end(s: &str, i: usize, ls: usize) -> (j: usize)
    requires
        ls == s@.len(),
        i <= ls,
    ensures
        j == line_end(s@, i as int),
        i <= j <= ls,
{
    proof {
        lemma_line_end(s@, i as int);
    }
    let mut j: usize = i;
    while j < ls
        invariant
            ls == s@.len(),
            i <= j <= ls,
            line_end(s@, i as int) == line_end(s@, j as int),
        decreases ls - j,
    {
        if s.get_char(j) == '\n' {
            return j;
        }
        j = j + 1;
    }
    j
}

/// Splits a text slice into its lines.
pub fn split_lines(s: &str) -> (r: Vec<String>)
    ensures
        r.deep_view() == lines_of(s@),
{
    let ls = s.unicode_len();
    let mut out: Vec<String> = Vec::new();
    let mut i: usize = 0;
    while i < ls
        invariant
            ls == s@.len(),
            i <= ls,
            out.deep_view() + lines_from(s@, i as int) == lines_from(s@, 0),
        decreases ls - i,
    {
        let j = find_line_end(s, i, ls);
        let line_stop = if j > i && s.get_char(j - 1) == '\r' {
            j - 1
        } else {
            j
        };
        let line = s.substring_char(i, line_stop);
        proof {
            let raw = s@.subrange(i as int, j as int);
            if j > i && s@[j - 1] == '\r' {
                assert(raw.last() == '\r');
                assert(line@ =~= raw.drop_last());
            } else {
                assert(line@ =~= raw);
            }
            assert(line@ == chomp_cr(raw));
        }
        out.push(line.to_owned());
        proof {
            assert(out.deep_view() + lines_from(s@, j as int + 1) =~= lines_from(s@, 0));
        }
        if j == ls {
            proof {
                assert(lines_from(s@, j as int + 1) =~= Seq::<Seq<char>>::empty());
                assert(out.deep_view() =~= lines_from(s@, 0));
            }
            return out;
        }
        i = j + 1;
    }
    proof {
        assert(lines_from(s@, i as int) =~= Seq::<Seq<char>>::empty());
        assert(out.deep_view() =~= lines_from(s@, 0));
    }
    out
}

/// The position of the first path separator at or after `i`, or the end
/// of the text when no separator follows.
pub open spec fn seg_end(s: Seq<char>, i: int) -> int
    decreases s.len() - i when 0 <= i <= s.len()
{
    if i >= s.len() {
        s.len() as int
    } else if s[i] == '/' {
        i
    } else {
        seg_end(s, i + 1)
    }
}

/// Position and contents of the first path separator at or after `i`.
pub proof fn lemma_seg_end(s: Seq<char>, i: int)
    requires
        0 <= i <= s.len(),
    ensures
        i <= seg_end(s, i) <= s.len(),
        seg_end(s, i) < s.len() ==> s[seg_end(s, i)] == '/',
        forall|j: int| i <= j < seg_end(s, i) ==> s[j] != '/',
    decreases s.len() - i,
{
    if i < s.len() && s[i] != '/' {
        lemma_seg_end(s, i + 1);
    }
}

/// A separator-free run that ends at the text's end or at a separator
/// begins the segment starting at `i`.
pub proof fn lemma_seg_end_at(s: Seq<char>, i: int, k: int)
    requires
        0 <= i <= k <= s.len(),
        forall|j: int| i <= j < k ==> s[j] != '/',
        k < s.len() ==> s[k] == '/',
    ensures
        seg_end(s, i) == k,
    decreases k - i,
{
    if i < k {
        lemma_seg_end_at(s, i + 1, k);
    }
}

/// The spurious path segment that reward identity keys carry upstream.
pub open spec fn spurious_segment() -> Seq<char> {
    "StoreItems"@
}

/// The path segments of a text value from position `i` on, with every
/// segment equal to the spurious marker discarded.  An empty text value
/// has one empty segment.
pub open spec fn kept_segments_from(s: Seq<char>, i: int) -> Seq<Seq<char>>
    decreases s.len() + 2 - i when 0 <= i via kept_segments_from_decreases
{
    if i > s.len() {
        Seq::empty()
    } else {
        let seg = s.subrange(i, seg_end(s, i));
        let rest = kept_segments_from(s, seg_end(s, i) + 1);
        if seg == spurious_segment() {
            rest
        } else {
            seq![seg] + rest
        }
    }
}

#[via_fn]
proof fn kept_segments_from_decreases(s: Seq<char>, i: int) {
    if 0 <= i <= s.len() {
        lemma_seg_end(s, i);
    }
}

/// Path segments joined back with separators.
pub open spec fn join_slash(segs: Seq<Seq<char>>) -> Seq<char>
    decreases segs.len(),
{
    if segs.len() == 0 {
        Seq::empty()
    } else if segs.len() == 1 {
        segs[0]
    } else {
        segs[0] + seq!['/'] + join_slash(segs.drop_first())
    }
}

/// Joining one more segment appends a separator and the segment, except
/// onto an empty list.
pub proof fn lemma_join_slash_push(segs: Seq<Seq<char>>, x: Seq<char>)
    ensures
        segs.len() == 0 ==> join_slash(segs.push(x)) == x,
        segs.len() > 0 ==> join_slash(segs.push(x)) == join_slash(segs) + seq!['/'] + x,
    decreases segs.len(),
{
    if segs.len() == 0 {
        assert(segs.push(x)[0] == x);
    } else if segs.len() == 1 {
        assert(segs.push(x).drop_first() =~= seq![x]);
        assert(join_slash(seq![x]) == x);
        assert(segs.push(x)[0] == segs[0]);
        assert(join_slash(segs.push(x)) == segs[0] + seq!['/'] + x);
    } else {
        lemma_join_slash_push(segs.drop_first(), x);
        assert(segs.push(x).drop_first() =~= segs.drop_first().push(x));
        assert((segs[0] + seq!['/'] + (join_slash(segs.drop_first()) + seq!['/'] + x)) =~= (segs[0]
            + seq!['/'] + join_slash(segs.drop_first())) + seq!['/'] + x);
    }
}

/// The normal form of a reward identity key: its path segments with the
/// spurious marker segments removed, joined back with separators.
pub open spec fn normalized_path(s: Seq<char>) -> Seq<char> {
    join_slash(kept_segments_from(s, 0))
}

/// The position of the first path separator at or after `i`, or the end
/// of the slice when no separator follows.
fn find_seg_end(s: &str, i: usize, ls: usize) -> (j: usize)
    requires
        ls == s@.len(),
        i <= ls,
    ensures
        j == seg_end(s@, i as int),
        i <= j <= ls,
{
    proof {
        lemma_seg_end(s@, i as int);
    }
    let mut j: usize = i;
    while j < ls
        invariant
            ls == s@.len(),
            i <= j <= ls,
            seg_end(s@, i as int) == seg_end(s@, j as int),
        decreases ls - j,
    {
        if s.get_char(j) == '/' {
            return j;
        }
        j = j + 1;
    }
    j
}

/// Rewrites a reward identity key into its normal form, dropping every
/// spurious marker segment from its path.
pub fn normalize_reward_path(s: &str) -> (r: String)
    ensures
        r@ == normalized_path(s@),
{
    let ls = s.unicode_len();
    let mut out = String::new();
    let mut first = true;
    let ghost mut acc: Seq<Seq<char>> = Seq::empty();
    let mut i: usize = 0;
    loop
        invariant
            ls == s@.len(),
            i <= ls,
            kept_segments_from(s@, 0) == acc + kept_segments_from(s@, i as int),
            out@ == join_slash(acc),
            first <==> acc.len() == 0,
        decreases ls - i,
    {
        let j = find_seg_end(s, i, ls);
        let seg = s.substring_char(i, j);
        if !str_eq(seg, "StoreItems") {
            proof {
                lemma_join_slash_push(acc, seg@);
            }
            if first {
                out.append(seg);
                first = false;
            } else {
                out.append("/");
                out.append(seg);
                assert(out@ =~= join_slash(acc) + seq!['/'] + seg@) by {
                    reveal_strlit("/");
                    assert("/"@ =~= seq!['/']);
                }
            }
            proof {
                acc = acc.push(seg@);
            }
        } else {
            assert(seg@ == spurious_segment()) by {
                reveal_strlit("StoreItems");
            }
        }
        proof {
            assert(acc + kept_segments_from(s@, j as int + 1) =~= kept_segments_from(s@, 0));
        }
        if j == ls {
            proof {
                assert(kept_segments_from(s@, j as int + 1) =~= Seq::<Seq<char>>::empty());
                assert(acc + Seq::<Seq<char>>::empty() =~= acc);
            }
            return out;
        }
        i = j + 1;
    }
}

/// A path segment holds no separator.
pub open spec fn slash_free(seg: Seq<char>) -> bool {
    forall|j: int| 0 <= j < seg.len() ==> seg[j] != '/'
}

/// Every kept segment is separator-free and differs from the spurious
/// marker.
pub proof fn lemma_kept_segments_wf(s: Seq<char>, i: int)
    requires
        0 <= i,
    ensures
        forall|k: int|
            0 <= k < kept_segments_from(s, i).len() ==> slash_free(
                #[trigger] kept_segments_from(s, i)[k],
            ) && kept_segments_from(s, i)[k] != spurious_segment(),
    decreases s.len() + 2 - i,
{
    if i <= s.len() {
        lemma_seg_end(s, i);
        let e = seg_end(s, i);
        let seg = s.subrange(i, e);
        assert(slash_free(seg));
        lemma_kept_segments_wf(s, e + 1);
        if seg == spurious_segment() {
            assert(kept_segments_from(s, i) == kept_segments_from(s, e + 1));
        } else {
            assert forall|k: int| 0 <= k < kept_segments_from(s, i).len() implies slash_free(
                #[trigger] kept_segments_from(s, i)[k],
            ) && kept_segments_from(s, i)[k] != spurious_segment() by {
                if k > 0 {
                    assert(kept_segments_from(s, i)[k] == kept_segments_from(s, e + 1)[k - 1]);
                }
            }
        }
    }
}

/// Splitting a joined list of well-formed segments gives the list back.
pub proof fn lemma_join_kept_at(s: Seq<char>, i: int, m: Seq<Seq<char>>)
    requires
        0 <= i <= s.len(),
        s.skip(i) == join_slash(m),
        m.len() > 0,
        forall|k: int|
            0 <= k < m.len() ==> slash_free(#[trigger] m[k]) && m[k] != spurious_segment(),
    ensures
        kept_segments_from(s, i) == m,
    decreases m.len(),
{
    let first = m[0];
    assert(slash_free(first));
    if m.len() == 1 {
        assert(s.skip(i) == first);
        assert(s.len() - i == first.len());
        assert forall|j: int| i <= j < s.len() implies s[j] != '/' by {
            assert(s.skip(i)[j - i] == s[j]);
        }
        lemma_seg_end_at(s, i, s.len() as int);
        assert(s.subrange(i, s.len() as int) =~= first) by {
            assert forall|j: int| 0 <= j < first.len() implies s.subrange(i, s.len() as int)[j]
                == first[j] by {
                assert(s.skip(i)[j] == first[j]);
            }
        }
        assert(kept_segments_from(s, s.len() + 1 as int) =~= Seq::<Seq<char>>::empty());
        assert(kept_segments_from(s, i) =~= seq![first]);
        assert(kept_segments_from(s, i) =~= m);
    } else {
        let rest = m.drop_first();
        let joined_rest = join_slash(rest);
        assert(s.skip(i) == first + seq!['/'] + joined_rest);
        let e = i + first.len();
        assert forall|j: int| i <= j < e implies s[j] != '/' by {
            assert(s.skip(i)[j - i] == s[j]);
            assert((first + seq!['/'] + joined_rest)[j - i] == first[j - i]);
        }
        assert(e < s.len()) by {
            assert(s.skip(i).len() == first.len() + 1 + joined_rest.len());
        }
        assert(s[e] == '/') by {
            assert(s.skip(i)[first.len() as int] == s[e]);
            assert((first + seq!['/'] + joined_rest)[first.len() as int] == '/');
        }
        lemma_seg_end_at(s, i, e);
        assert(s.subrange(i, e) =~= first) by {
            assert forall|j: int| 0 <= j < first.len() implies s.subrange(i, e)[j] == first[j] by {
                assert(s.skip(i)[j] == s[i + j]);
                assert((first + seq!['/'] + joined_rest)[j] == first[j]);
            }
        }
        assert(s.skip(e + 1) =~= joined_rest) by {
            assert(s.skip(i).len() == first.len() + 1 + joined_rest.len());
            assert forall|j: int| 0 <= j < joined_rest.len() implies s.skip(e + 1)[j]
                == joined_rest[j] by {
                assert(s.skip(e + 1)[j] == s[e + 1 + j]);
                assert(s.skip(i)[first.len() + 1 + j] == s[e + 1 + j]);
                assert((first + seq!['/'] + joined_rest)[first.len() + 1 + j] == joined_rest[j]);
            }
        }
        assert forall|k: int|
            0 <= k < rest.len() implies slash_free(#[trigger] rest[k]) && rest[k]
            != spurious_segment() by {
            assert(rest[k] == m[k + 1]);
        }
        lemma_join_kept_at(s, e + 1, rest);
        assert(kept_segments_from(s, i) =~= seq![first] + rest);
        assert(seq![first] + rest =~= m);
    }
}

/// Normalizing a reward identity key is idempotent: a second pass leaves
/// the normal form unchanged.
pub proof fn lemma_normalized_path_idempotent(s: Seq<char>)
    ensures
        normalized_path(normalized_path(s)) == normalized_path(s),
{
    let m = kept_segments_from(s, 0);
    lemma_kept_segments_wf(s, 0);
    let t = normalized_path(s);
    if m.len() == 0 {
        assert(t =~= Seq::<char>::empty());
        reveal_strlit("StoreItems");
        assert(spurious_segment().len() == 10);
        assert(seg_end(t, 0) == 0);
        assert(t.subrange(0, 0) =~= Seq::<char>::empty());
        assert(kept_segments_from(t, 1) =~= Seq::<Seq<char>>::empty());
        assert(kept_segments_from(t, 0) =~= seq![Seq::<char>::empty()]);
        assert(join_slash(seq![Seq::<char>::empty()]) == Seq::<char>::empty());
        assert(normalized_path(t) =~= t);
    } else {
        assert(t.skip(0) =~= t);
        lemma_join_kept_at(t, 0, m);
        assert(normalized_path(t) == join_slash(m));
    }
}

} // verus!


