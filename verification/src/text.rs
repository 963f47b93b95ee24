//! Verified text utilities: whitespace trimming, splitting on a separator
//! character, substring search and replacement, and decimal parsing. The
//! contracts are stated over `Seq<char>` views.

use vstd::prelude::*;

verus! {

/// The Unicode `White_Space` characters, the set that trimming removes.
pub open spec fn is_space(c: char) -> bool {
    let u = c as u32;
    (0x09 <= u && u <= 0x0D) || u == 0x20 || u == 0x85 || u == 0xA0 || u == 0x1680 || (0x2000
        <= u && u <= 0x200A) || u == 0x2028 || u == 0x2029 || u == 0x202F || u == 0x205F || u
        == 0x3000
}

/// Runtime test for [`is_space`].
pub fn is_space_char(c: char) -> (b: bool)
    ensures
        b == is_space(c),
{
    let u = c as u32;
    (0x09 <= u && u <= 0x0D) || u == 0x20 || u == 0x85 || u == 0xA0 || u == 0x1680 || (0x2000
        <= u && u <= 0x200A) || u == 0x2028 || u == 0x2029 || u == 0x202F || u == 0x205F || u
        == 0x3000
}

/// The sequence with leading whitespace removed.
pub open spec fn trim_front(s: Seq<char>) -> Seq<char>
    decreases s.len(),
{
    if s.len() > 0 && is_space(s[0]) {
        trim_front(s.subrange(1, s.len() as int))
    } else {
        s
    }
}

/// The sequence with trailing whitespace removed.
pub open spec fn trim_back(s: Seq<char>) -> Seq<char>
    decreases s.len(),
{
    if s.len() > 0 && is_space(s[s.len() - 1]) {
        trim_back(s.subrange(0, s.len() - 1))
    } else {
        s
    }
}

/// The sequence with both leading and trailing whitespace removed, as
/// `str::trim` produces it.
pub open spec fn trim_seq(s: Seq<char>) -> Seq<char> {
    trim_back(trim_front(s))
}

proof fn lemma_trim_front_skip(s: Seq<char>, i: int)
    requires
        0 <= i <= s.len(),
        forall|k: int| 0 <= k < i ==> is_space(s[k]),
    ensures
        trim_front(s) == trim_front(s.subrange(i, s.len() as int)),
    decreases i,
{
    if i > 0 {
        assert(is_space(s[0]));
        let rest = s.subrange(1, s.len() as int);
        assert(rest.subrange(i - 1, rest.len() as int) =~= s.subrange(i, s.len() as int));
        lemma_trim_front_skip(rest, i - 1);
    } else {
        assert(s.subrange(0, s.len() as int) =~= s);
    }
}

proof fn lemma_trim_back_skip(s: Seq<char>, j: int)
    requires
        0 <= j <= s.len(),
        forall|k: int| j <= k < s.len() ==> is_space(s[k]),
    ensures
        trim_back(s) == trim_back(s.subrange(0, j)),
    decreases s.len() - j,
{
    if j < s.len() {
        assert(is_space(s[s.len() - 1]));
        let rest = s.subrange(0, s.len() - 1);
        assert(rest.subrange(0, j) =~= s.subrange(0, j));
        lemma_trim_back_skip(rest, j);
    } else {
        assert(s.subrange(0, j) =~= s);
    }
}

/// Trimming, as `str::trim`: the result drops exactly the leading and
/// trailing whitespace of `s`.
pub fn trim_str<'a>(s: &'a str) -> (r: &'a str)
    ensures
        r@ == trim_seq(s@),
{
    let n = s.unicode_len();
    let mut i: usize = 0;
    while i < n && is_space_char(s.get_char(i))
        invariant
            0 <= i <= n,
            n == s@.len(),
            forall|k: int| 0 <= k < i ==> is_space(s@[k]),
        decreases n - i,
    {
        i = i + 1;
    }
    proof {
        lemma_trim_front_skip(s@, i as int);
        assert(trim_front(s@) == s@.subrange(i as int, n as int));
    }
    let mut j: usize = n;
    while j > i && is_space_char(s.get_char(j - 1))
        invariant
            i <= j <= n,
            n == s@.len(),
            forall|k: int| j <= k < n ==> is_space(s@[k]),
        decreases j,
    {
        j = j - 1;
    }
    proof {
        let t = s@.subrange(i as int, n as int);
        assert(forall|k: int| j - i <= k < t.len() ==> is_space(t[k]));
        lemma_trim_back_skip(t, j - i);
        assert(t.subrange(0, j - i) =~= s@.subrange(i as int, j as int));
        if j > i {
            assert(!is_space(s@.subrange(i as int, j as int)[j - i - 1]));
        }
        assert(trim_back(t) == s@.subrange(i as int, j as int));
    }
    s.substring_char(i, j)
}

/// The segments of `s` between occurrences of `sep`: one segment more than
/// there are separators, in order, separators not included.
pub open spec fn split_char(s: Seq<char>, sep: char) -> Seq<Seq<char>>
    decreases s.len(),
{
    if s.len() == 0 {
        seq![Seq::<char>::empty()]
    } else if s[0] == sep {
        seq![Seq::<char>::empty()] + split_char(s.subrange(1, s.len() as int), sep)
    } else {
        let rest = split_char(s.subrange(1, s.len() as int), sep);
        seq![seq![s[0]] + rest[0]] + rest.subrange(1, rest.len() as int)
    }
}

pub proof fn lemma_split_char_len(s: Seq<char>, sep: char)
    ensures
        split_char(s, sep).len() >= 1,
    decreases s.len(),
{
    if s.len() > 0 {
        lemma_split_char_len(s.subrange(1, s.len() as int), sep);
    }
}

/// If no separator stands before position `j`, the split starts with the
/// segment `s[..j]`; what follows `j` is split on its own.
proof fn lemma_split_char_head(s: Seq<char>, sep: char, j: int)
    requires
        0 <= j <= s.len(),
        forall|k: int| 0 <= k < j ==> s[k] != sep,
        j < s.len() ==> s[j] == sep,
    ensures
        j == s.len() ==> split_char(s, sep) =~~= seq![s],
        j < s.len() ==> split_char(s, sep) =~~= seq![s.subrange(0, j)] + split_char(
            s.subrange(j + 1, s.len() as int),
            sep,
        ),
    decreases j,
{
    let rest = s.subrange(1, s.len() as int);
    lemma_split_char_len(rest, sep);
    if j == 0 {
        if 0 < s.len() {
            assert(s.subrange(1, s.len() as int) =~= s.subrange(j + 1, s.len() as int));
        }
    } else {
        assert(s[0] != sep);
        lemma_split_char_head(rest, sep, j - 1);
        if j == s.len() {
            assert(seq![s[0]] + rest =~= s);
        } else {
            assert(seq![s[0]] + rest.subrange(0, j - 1) =~= s.subrange(0, j));
            assert(rest.subrange(j, rest.len() as int) =~= s.subrange(j + 1, s.len() as int));
        }
    }
}

/// The views of a sequence of owned strings.
pub open spec fn str_views(v: Seq<String>) -> Seq<Seq<char>> {
    v.map_values(|s: String| s@)
}

/// Splitting on a separator character: the returned strings are exactly the
/// segments of `s` between occurrences of `sep`.
pub fn split_on_char(s: &str, sep: char) -> (r: Vec<String>)
    ensures
        str_views(r@) == split_char(s@, sep),
{
    let n = s.unicode_len();
    let mut r: Vec<String> = Vec::new();
    let mut start: usize = 0;
    let mut i: usize = 0;
    proof {
        assert(s@.subrange(0, n as int) =~= s@);
    }
    while i < n
        invariant
            0 <= start <= i <= n,
            n == s@.len(),
            forall|k: int| start <= k < i ==> s@[k] != sep,
            split_char(s@, sep) =~~= str_views(r@) + split_char(
                s@.subrange(start as int, n as int),
                sep,
            ),
        decreases n - i,
    {
        if s.get_char(i) == sep {
            let seg = s.substring_char(start, i).to_owned();
            proof {
                let suffix = s@.subrange(start as int, n as int);
                lemma_split_char_head(suffix, sep, i - start);
                assert(suffix.subrange(0, i - start) =~= s@.subrange(start as int, i as int));
                assert(suffix.subrange(i - start + 1, suffix.len() as int) =~= s@.subrange(
                    i + 1,
                    n as int,
                ));
                assert(str_views(r@.push(seg)) =~= str_views(r@) + seq![seg@]);
            }
            r.push(seg);
            start = i + 1;
        }
        i = i + 1;
    }
    let last = s.substring_char(start, n).to_owned();
    proof {
        let suffix = s@.subrange(start as int, n as int);
        lemma_split_char_head(suffix, sep, n - start);
        assert(str_views(r@.push(last)) =~= str_views(r@) + seq![last@]);
        assert(str_views(r@.push(last)) =~~= split_char(s@, sep));
    }
    r.push(last);
    r
}

/// Each segment trimmed, with the segments that trim to nothing dropped.
pub open spec fn trim_nonempty(lines: Seq<Seq<char>>) -> Seq<Seq<char>>
    decreases lines.len(),
{
    if lines.len() == 0 {
        Seq::empty()
    } else {
        let t = trim_seq(lines[0]);
        let rest = trim_nonempty(lines.subrange(1, lines.len() as int));
        if t.len() == 0 {
            rest
        } else {
            seq![t] + rest
        }
    }
}

/// The trimmed non-empty lines of a text, in order.
pub open spec fn relevant_lines(s: Seq<char>) -> Seq<Seq<char>> {
    trim_nonempty(split_char(s, '\n'))
}

proof fn lemma_trim_nonempty_push(lines: Seq<Seq<char>>, x: Seq<char>)
    ensures
        trim_nonempty(lines.push(x)) =~~= trim_nonempty(lines) + (if trim_seq(x).len() == 0 {
            Seq::<Seq<char>>::empty()
        } else {
            seq![trim_seq(x)]
        }),
    decreases lines.len(),
{
    let pushed = lines.push(x);
    if lines.len() == 0 {
        assert(pushed.subrange(1, pushed.len() as int) =~= Seq::<Seq<char>>::empty());
        assert(trim_nonempty(Seq::<Seq<char>>::empty()) =~= Seq::<Seq<char>>::empty());
        assert(pushed[0] == x);
    } else {
        assert(pushed.subrange(1, pushed.len() as int) =~= lines.subrange(
            1,
            lines.len() as int,
        ).push(x));
        lemma_trim_nonempty_push(lines.subrange(1, lines.len() as int), x);
    }
}

proof fn lemma_trim_front_fixed(s: Seq<char>)
    ensures
        trim_front(s).len() > 0 ==> !is_space(trim_front(s)[0]),
    decreases s.len(),
{
    if s.len() > 0 && is_space(s[0]) {
        lemma_trim_front_fixed(s.subrange(1, s.len() as int));
    }
}

proof fn lemma_trim_back_fixed(s: Seq<char>)
    ensures
        trim_back(s).len() > 0 ==> !is_space(trim_back(s)[trim_back(s).len() - 1]),
        trim_back(s).len() > 0 ==> trim_back(s)[0] == s[0],
    decreases s.len(),
{
    if s.len() > 0 && is_space(s[s.len() - 1]) {
        lemma_trim_back_fixed(s.subrange(0, s.len() - 1));
    }
}

/// Trimming is idempotent.
pub proof fn lemma_trim_idempotent(s: Seq<char>)
    ensures
        trim_seq(trim_seq(s)) == trim_seq(s),
{
    let u = trim_front(s);
    let t = trim_back(u);
    lemma_trim_front_fixed(s);
    lemma_trim_back_fixed(u);
    assert(trim_front(t) == t);
    lemma_trim_back_fixed(t);
    assert(trim_back(t) == t);
}

/// Every line that `trim_nonempty` keeps is non-empty and already trimmed.
proof fn lemma_trim_nonempty_elems(lines: Seq<Seq<char>>)
    ensures
        forall|i: int|
            0 <= i < trim_nonempty(lines).len() ==> (#[trigger] trim_nonempty(lines)[i]).len() > 0
                && trim_seq(trim_nonempty(lines)[i]) == trim_nonempty(lines)[i],
    decreases lines.len(),
{
    if lines.len() > 0 {
        let rest = trim_nonempty(lines.subrange(1, lines.len() as int));
        let t = trim_seq(lines[0]);
        lemma_trim_nonempty_elems(lines.subrange(1, lines.len() as int));
        lemma_trim_idempotent(lines[0]);
        assert forall|i: int| 0 <= i < trim_nonempty(lines).len() implies (#[trigger] trim_nonempty(
            lines,
        )[i]).len() > 0 && trim_seq(trim_nonempty(lines)[i]) == trim_nonempty(lines)[i] by {
            if t.len() == 0 {
                assert(trim_nonempty(lines)[i] == rest[i]);
            } else {
                if i == 0 {
                    assert(trim_nonempty(lines)[i] == t);
                } else {
                    assert(trim_nonempty(lines)[i] == rest[i - 1]);
                }
            }
        }
    }
}

/// Every line that `relevant_lines` yields is non-empty and already trimmed.
pub proof fn lemma_relevant_lines_trimmed(s: Seq<char>)
    ensures
        forall|i: int|
            0 <= i < relevant_lines(s).len() ==> (#[trigger] relevant_lines(s)[i]).len() > 0
                && trim_seq(relevant_lines(s)[i]) == relevant_lines(s)[i],
{
    lemma_trim_nonempty_elems(split_char(s, '\n'));
}

/// The trimmed non-empty lines of `s`, split on the newline character.
pub fn split_trimmed_nonempty_lines(s: &str) -> (r: Vec<String>)
    ensures
        str_views(r@) == relevant_lines(s@),
{
    let raw = split_on_char(s, '\n');
    let mut out: Vec<String> = Vec::new();
    let n = raw.len();
    let mut i: usize = 0;
    proof {
        assert(str_views(raw@).subrange(0, 0) =~= Seq::<Seq<char>>::empty());
    }
    while i < n
        invariant
            0 <= i <= n,
            n == raw@.len(),
            str_views(raw@) == split_char(s@, '\n'),
            str_views(out@) =~~= trim_nonempty(str_views(raw@).subrange(0, i as int)),
        decreases n - i,
    {
        let line: &String = &raw[i];
        let t = trim_str(line.as_str());
        proof {
            let views = str_views(raw@);
            assert(views.subrange(0, i + 1) =~= views.subrange(0, i as int).push(views[i as int]));
            lemma_trim_nonempty_push(views.subrange(0, i as int), views[i as int]);
        }
        if t.unicode_len() > 0 {
            let kept = t.to_owned();
            proof {
                assert(str_views(out@.push(kept)) =~= str_views(out@) + seq![kept@]);
            }
            out.push(kept);
        }
        i = i + 1;
    }
    proof {
        assert(str_views(raw@).subrange(0, n as int) =~= str_views(raw@));
    }
    out
}

/// The pattern `p` occurs in `s` starting at position `i`.
pub open spec fn matches_at(s: Seq<char>, p: Seq<char>, i: int) -> bool {
    0 <= i && i + p.len() <= s.len() && s.subrange(i, i + p.len() as int) == p
}

/// Whether `p` occurs in `s` at position `i`, by character comparison.
pub fn matches_sub_at(s: &str, p: &str, i: usize) -> (b: bool)
    requires
        i + p@.len() <= s@.len(),
        s@.len() <= usize::MAX,
    ensures
        b == matches_at(s@, p@, i as int),
{
    let m = p.unicode_len();
    let mut k: usize = 0;
    while k < m
        invariant
            0 <= k <= m,
            m == p@.len(),
            i + m <= s@.len(),
            s@.len() <= usize::MAX,
            forall|t: int| 0 <= t < k ==> s@[i + t] == p@[t],
        decreases m - k,
    {
        if s.get_char(i + k) != p.get_char(k) {
            proof {
                assert(s@.subrange(i as int, i + m) != p@) by {
                    assert(s@.subrange(i as int, i + m)[k as int] == s@[i + k]);
                }
            }
            return false;
        }
        k = k + 1;
    }
    proof {
        assert(s@.subrange(i as int, i + m) =~= p@);
    }
    true
}

/// `s` with every occurrence of `pat` removed: occurrences are found left to
/// right and do not overlap, as `str::replace` finds them. An empty pattern
/// changes nothing.
pub open spec fn remove_all(s: Seq<char>, pat: Seq<char>) -> Seq<char>
    decreases s.len(),
{
    if pat.len() == 0 || s.len() < pat.len() {
        s
    } else if s.subrange(0, pat.len() as int) == pat {
        remove_all(s.subrange(pat.len() as int, s.len() as int), pat)
    } else {
        seq![s[0]] + remove_all(s.subrange(1, s.len() as int), pat)
    }
}

/// If no occurrence of `pat` starts before position `j`, the part of `s`
/// before `j` passes through the removal unchanged.
proof fn lemma_remove_all_skip(s: Seq<char>, pat: Seq<char>, j: int)
    requires
        pat.len() > 0,
        0 <= j <= s.len(),
        forall|k: int| 0 <= k < j ==> !matches_at(s, pat, k),
    ensures
        remove_all(s, pat) == s.subrange(0, j) + remove_all(s.subrange(j, s.len() as int), pat),
    decreases j,
{
    if j == 0 {
        assert(s.subrange(0, s.len() as int) =~= s);
        assert(s.subrange(0, 0) + remove_all(s, pat) =~= remove_all(s, pat));
    } else {
        assert(!matches_at(s, pat, 0));
        if s.len() >= pat.len() {
            assert(s.subrange(0, pat.len() as int) != pat);
        }
        let rest = s.subrange(1, s.len() as int);
        assert forall|k: int| 0 <= k < j - 1 implies !matches_at(rest, pat, k) by {
            if k + pat.len() <= rest.len() {
                assert(rest.subrange(k, k + pat.len() as int) =~= s.subrange(
                    k + 1,
                    k + 1 + pat.len() as int,
                ));
                assert(!matches_at(s, pat, k + 1));
            }
        }
        lemma_remove_all_skip(rest, pat, j - 1);
        assert(rest.subrange(j - 1, rest.len() as int) =~= s.subrange(j, s.len() as int));
        assert(seq![s[0]] + (rest.subrange(0, j - 1) + remove_all(
            s.subrange(j, s.len() as int),
            pat,
        )) =~= s.subrange(0, j) + remove_all(s.subrange(j, s.len() as int), pat));
    }
}

/// Removal of every occurrence of `pat` from `s`, as `str::replace` with an
/// empty replacement performs it.
pub fn remove_all_str(s: &str, pat: &str) -> (r: String)
    ensures
        r@ == remove_all(s@, pat@),
{
    let n = s.unicode_len();
    let m = pat.unicode_len();
    if m == 0 {
        return s.to_owned();
    }
    let mut out = String::new();
    let mut pos: usize = 0;
    proof {
        assert(s@.subrange(0, n as int) =~= s@);
        assert(Seq::<char>::empty() + remove_all(s@, pat@) =~= remove_all(s@, pat@));
    }
    if m <= n {
        let mut i: usize = 0;
        while i <= n - m
            invariant
                0 <= pos <= i <= n,
                n == s@.len(),
                m == pat@.len(),
                0 < m <= n,
                forall|k: int| pos <= k < i ==> !matches_at(s@, pat@, k),
                out@ + remove_all(s@.subrange(pos as int, n as int), pat@) == remove_all(s@, pat@),
            decreases n - i,
        {
            if matches_sub_at(s, pat, i) {
                let seg = s.substring_char(pos, i);
                proof {
                    let suffix = s@.subrange(pos as int, n as int);
                    assert forall|k: int| 0 <= k < i - pos implies !matches_at(suffix, pat@, k) by {
                        assert(suffix.subrange(k, k + m as int) =~= s@.subrange(
                            pos + k,
                            pos + k + m as int,
                        ));
                        assert(!matches_at(s@, pat@, pos + k));
                    }
                    lemma_remove_all_skip(suffix, pat@, i - pos);
                    assert(suffix.subrange(i - pos, suffix.len() as int) =~= s@.subrange(
                        i as int,
                        n as int,
                    ));
                    assert(s@.subrange(i as int, n as int).subrange(0, m as int) =~= s@.subrange(
                        i as int,
                        i + m as int,
                    ));
                    assert(s@.subrange(i as int, n as int).subrange(m as int, n - i)
                        =~= s@.subrange(i + m, n as int));
                    assert(suffix.subrange(0, i - pos) =~= seg@);
                }
                out.append(seg);
                pos = i + m;
                i = pos;
            } else {
                i = i + 1;
            }
        }
        proof {
            assert(forall|k: int| pos <= k < n ==> !matches_at(s@, pat@, k));
        }
    } else {
        proof {
            assert(forall|k: int| pos <= k < n ==> !matches_at(s@, pat@, k));
        }
    }
    let tail = s.substring_char(pos, n);
    proof {
        let suffix = s@.subrange(pos as int, n as int);
        assert forall|k: int| 0 <= k < n - pos implies !matches_at(suffix, pat@, k) by {
            if k + m <= suffix.len() {
                assert(suffix.subrange(k, k + m as int) =~= s@.subrange(
                    pos + k,
                    pos + k + m as int,
                ));
                assert(!matches_at(s@, pat@, pos + k));
            }
        }
        lemma_remove_all_skip(suffix, pat@, n - pos);
        assert(suffix.subrange(n - pos, suffix.len() as int) =~= Seq::<char>::empty());
        assert(remove_all(Seq::<char>::empty(), pat@) =~= Seq::<char>::empty());
        assert(suffix.subrange(0, n - pos) =~= tail@);
        assert(out@ + (tail@ + Seq::<char>::empty()) =~= out@ + tail@);
    }
    out.append(tail);
    out
}

/// A line with one trailing carriage return removed, as `str::lines` yields
/// its lines.
pub open spec fn strip_cr(l: Seq<char>) -> Seq<char> {
    if l.len() > 0 && l[l.len() - 1] == '\r' {
        l.subrange(0, l.len() - 1)
    } else {
        l
    }
}

/// The raw lines of a text, as `str::lines` yields them: split on the newline
/// character, a final empty segment dropped, one trailing carriage return
/// removed from each line. Nothing else is trimmed and empty interior lines
/// are kept.
pub open spec fn raw_lines(s: Seq<char>) -> Seq<Seq<char>> {
    let segs = split_char(s, '\n');
    let kept = if segs[segs.len() - 1].len() == 0 {
        segs.subrange(0, segs.len() - 1)
    } else {
        segs
    };
    kept.map_values(|l: Seq<char>| strip_cr(l))
}

/// The raw lines of `s`, as [`raw_lines`] describes them.
pub fn raw_lines_of(s: &str) -> (r: Vec<String>)
    ensures
        str_views(r@) == raw_lines(s@),
{
    let segs = split_on_char(s, '\n');
    proof {
        lemma_split_char_len(s@, '\n');
    }
    let last: &String = &segs[segs.len() - 1];
    proof {
        assert(str_views(segs@)[segs@.len() - 1] == last@);
    }
    let keep_n: usize = if last.as_str().unicode_len() == 0 {
        segs.len() - 1
    } else {
        segs.len()
    };
    let ghost kept = if str_views(segs@)[segs@.len() - 1].len() == 0 {
        str_views(segs@).subrange(0, str_views(segs@).len() - 1)
    } else {
        str_views(segs@)
    };
    let mut out: Vec<String> = Vec::new();
    let mut i: usize = 0;
    while i < keep_n
        invariant
            0 <= i <= keep_n,
            keep_n <= segs@.len(),
            kept.len() == keep_n,
            forall|k: int| 0 <= k < keep_n ==> kept[k] == str_views(segs@)[k],
            out@.len() == i,
            forall|k: int| 0 <= k < i ==> (#[trigger] out@[k])@ == strip_cr(kept[k]),
        decreases keep_n - i,
    {
        let line: &String = &segs[i];
        proof {
            assert(str_views(segs@)[i as int] == line@);
        }
        let m = line.as_str().unicode_len();
        if m > 0 && line.as_str().get_char(m - 1) == '\r' {
            out.push(line.as_str().substring_char(0, m - 1).to_owned());
        } else {
            out.push(line.clone());
        }
        i = i + 1;
    }
    proof {
        assert(str_views(out@) =~~= kept.map_values(|l: Seq<char>| strip_cr(l)));
    }
    out
}

/// An ASCII decimal digit.
pub open spec fn is_digit(c: char) -> bool {
    0x30 <= (c as u32) && (c as u32) <= 0x39
}

pub open spec fn all_digits(s: Seq<char>) -> bool {
    forall|i: int| 0 <= i < s.len() ==> is_digit(#[trigger] s[i])
}

/// The value of a sequence of decimal digits, most significant first.
pub open spec fn digits_val(s: Seq<char>) -> int
    decreases s.len(),
{
    if s.len() == 0 {
        0
    } else {
        digits_val(s.subrange(0, s.len() - 1)) * 10 + ((s[s.len() - 1] as u32) - 0x30)
    }
}

/// The digits of a decimal numeral: an optional leading `+` is dropped.
pub open spec fn numeral_digits(s: Seq<char>) -> Seq<char> {
    if s.len() > 0 && s[0] == '+' {
        s.subrange(1, s.len() as int)
    } else {
        s
    }
}

/// A decimal numeral of a non-negative integer, as `str::parse` accepts it:
/// an optional leading `+`, then at least one digit.
pub open spec fn is_numeral(s: Seq<char>) -> bool {
    numeral_digits(s).len() > 0 && all_digits(numeral_digits(s))
}

/// The non-negative integer a numeral denotes.
pub open spec fn numeral_val(s: Seq<char>) -> int {
    digits_val(numeral_digits(s))
}

/// The numeral's value with every value above 9999 flattened to 9999: enough
/// to settle any comparison against a bound below that.
pub open spec fn saturated_numeral_val(s: Seq<char>) -> int {
    if numeral_val(s) > 9999 {
        9999
    } else {
        numeral_val(s)
    }
}

proof fn lemma_digits_val_nonneg(s: Seq<char>)
    requires
        all_digits(s),
    ensures
        digits_val(s) >= 0,
    decreases s.len(),
{
    if s.len() > 0 {
        let pre = s.subrange(0, s.len() - 1);
        assert(all_digits(pre));
        lemma_digits_val_nonneg(pre);
    }
}

/// Whether `s` is a decimal numeral, and its value, saturated at 9999. The
/// value of a numeral is unbounded, so only its saturation is computed; it
/// still decides every comparison the callers make.
pub fn parse_numeral_saturating(s: &str) -> (r: Option<u32>)
    ensures
        r is Some <==> is_numeral(s@),
        (r matches Some(c) ==> c as int == saturated_numeral_val(s@) && numeral_val(s@) >= 0),
{
    let n = s.unicode_len();
    let start: usize = if n > 0 && s.get_char(0) == '+' {
        1
    } else {
        0
    };
    let ghost d = numeral_digits(s@);
    proof {
        assert(d =~= s@.subrange(start as int, n as int));
    }
    if start >= n {
        return None;
    }
    let mut val: u32 = 0;
    let mut i: usize = start;
    while i < n
        invariant
            start <= i <= n,
            n == s@.len(),
            start < n,
            start <= 1,
            d == s@.subrange(start as int, n as int),
            d == numeral_digits(s@),
            forall|k: int| start <= k < i ==> is_digit(#[trigger] s@[k]),
            val as int == (if digits_val(s@.subrange(start as int, i as int)) > 9999 {
                9999int
            } else {
                digits_val(s@.subrange(start as int, i as int))
            }),
        decreases n - i,
    {
        let c = s.get_char(i);
        let u = c as u32;
        if u < 0x30 || u > 0x39 {
            proof {
                assert(d[i - start] == s@[i as int]);
                assert(!all_digits(d));
            }
            return None;
        }
        proof {
            let prefix = s@.subrange(start as int, i as int);
            assert(s@.subrange(start as int, i + 1).subrange(0, i - start) =~= prefix);
            assert(all_digits(prefix));
            lemma_digits_val_nonneg(prefix);
            assert(digits_val(s@.subrange(start as int, i + 1)) == digits_val(prefix) * 10 + (u
                - 0x30));
        }
        let nv = val * 10 + (u - 0x30);
        val = if nv > 9999 {
            9999
        } else {
            nv
        };
        i = i + 1;
    }
    proof {
        assert(d =~= s@.subrange(start as int, n as int));
        assert(all_digits(d));
        lemma_digits_val_nonneg(d);
    }
    Some(val)
}

} // verus!
