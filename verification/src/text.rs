use vstd::prelude::*;

verus! {

/// Unicode `White_Space`: the characters that `char::is_whitespace`, `str::trim` and the
/// regular-expression class `\s` treat as white space.
pub open spec fn is_space(c: char) -> bool {
    ||| ('\t' <= c && c <= '\r')
    ||| c == ' '
    ||| c == '\u{85}'
    ||| c == '\u{a0}'
    ||| c == '\u{1680}'
    ||| ('\u{2000}' <= c && c <= '\u{200a}')
    ||| c == '\u{2028}'
    ||| c == '\u{2029}'
    ||| c == '\u{202f}'
    ||| c == '\u{205f}'
    ||| c == '\u{3000}'
}

/// `s` holds no white space at all.
pub open spec fn has_no_space(s: Seq<char>) -> bool {
    forall|i: int| 0 <= i < s.len() ==> !is_space(#[trigger] s[i])
}

/// `s` with its leading white space removed.
pub open spec fn trim_start(s: Seq<char>) -> Seq<char>
    decreases s.len(),
{
    if s.len() > 0 && is_space(s[0]) {
        trim_start(s.drop_first())
    } else {
        s
    }
}

/// `s` with its trailing white space removed.
pub open spec fn trim_end(s: Seq<char>) -> Seq<char>
    decreases s.len(),
{
    if s.len() > 0 && is_space(s.last()) {
        trim_end(s.drop_last())
    } else {
        s
    }
}

/// `s` with leading and trailing white space removed, as `str::trim` does.
pub open spec fn trim(s: Seq<char>) -> Seq<char> {
    trim_end(trim_start(s))
}

/// The index of the first `c` in `s`, or the length of `s` when `c` does not occur.
pub open spec fn first_index(s: Seq<char>, c: char) -> nat
    decreases s.len(),
{
    if s.len() == 0 {
        0
    } else if s[0] == c {
        0
    } else {
        1 + first_index(s.drop_first(), c)
    }
}

/// What follows the first `:` of a `key: value` line, trimmed.
pub open spec fn value_of(line: Seq<char>) -> Seq<char> {
    trim(line.skip(first_index(line, ':') + 1 as int))
}

/// `line` without one trailing carriage return.
pub open spec fn strip_cr(line: Seq<char>) -> Seq<char> {
    if line.len() > 0 && line.last() == '\r' {
        line.drop_last()
    } else {
        line
    }
}

/// The lines of `s`, as `str::lines` yields them: split at `\n`, a `\r` right before the
/// `\n` dropped, and no empty last line for a final line ending.
pub open spec fn lines(s: Seq<char>) -> Seq<Seq<char>>
    decreases s.len(),
{
    if s.len() == 0 {
        Seq::empty()
    } else {
        let e = first_index(s, '\n');
        if e >= s.len() {
            seq![s]
        } else {
            seq![strip_cr(s.take(e as int))] + lines(s.skip(e + 1 as int))
        }
    }
}

pub proof fn lemma_first_index(s: Seq<char>, c: char, k: int)
    requires
        0 <= k <= s.len(),
        forall|i: int| 0 <= i < k ==> s[i] != c,
        k == s.len() || s[k] == c,
    ensures
        first_index(s, c) == k,
    decreases k,
{
    if k > 0 {
        lemma_first_index(s.drop_first(), c, k - 1);
    }
}

pub proof fn lemma_first_index_bound(s: Seq<char>, c: char)
    ensures
        first_index(s, c) <= s.len(),
        forall|i: int| 0 <= i < first_index(s, c) ==> s[i] != c,
        first_index(s, c) < s.len() ==> s[first_index(s, c) as int] == c,
        s.contains(c) ==> first_index(s, c) < s.len(),
    decreases s.len(),
{
    if s.len() > 0 && s[0] != c {
        lemma_first_index_bound(s.drop_first(), c);
        assert forall|i: int| 0 <= i < first_index(s, c) implies s[i] != c by {
            if i > 0 {
                assert(s[i] == s.drop_first()[i - 1]);
            }
        }
        if s.contains(c) {
            let j = choose|j: int| 0 <= j < s.len() && s[j] == c;
            assert(s.drop_first()[j - 1] == c);
        }
    }
}

pub proof fn lemma_trim_start(s: Seq<char>, a: int)
    requires
        0 <= a <= s.len(),
        forall|i: int| 0 <= i < a ==> is_space(#[trigger] s[i]),
        a == s.len() || !is_space(s[a]),
    ensures
        trim_start(s) == s.skip(a),
    decreases a,
{
    if a > 0 {
        assert forall|i: int| 0 <= i < a - 1 implies is_space(#[trigger] s.drop_first()[i]) by {
            assert(s.drop_first()[i] == s[i + 1]);
        }
        lemma_trim_start(s.drop_first(), a - 1);
        assert(s.drop_first().skip(a - 1) =~= s.skip(a));
    } else {
        assert(s.skip(0) =~= s);
    }
}

pub proof fn lemma_trim_end(s: Seq<char>, b: int)
    requires
        0 <= b <= s.len(),
        forall|i: int| b <= i < s.len() ==> is_space(#[trigger] s[i]),
        b == 0 || !is_space(s[b - 1]),
    ensures
        trim_end(s) == s.take(b),
    decreases s.len() - b,
{
    if b < s.len() {
        assert forall|i: int| b <= i < s.len() - 1 implies is_space(#[trigger] s.drop_last()[i]) by {
            assert(s.drop_last()[i] == s[i]);
        }
        lemma_trim_end(s.drop_last(), b);
        assert(s.drop_last().take(b) =~= s.take(b));
    } else {
        assert(s.take(b) =~= s);
    }
}

/// Whether `c` is white space, as `char::is_whitespace` decides it.
pub fn is_space_char(c: char) -> (r: bool)
    ensures
        r == is_space(c),
{
    ('\t' <= c && c <= '\r') || c == ' ' || c == '\u{85}' || c == '\u{a0}' || c == '\u{1680}'
        || ('\u{2000}' <= c && c <= '\u{200a}') || c == '\u{2028}' || c == '\u{2029}' || c
        == '\u{202f}' || c == '\u{205f}' || c == '\u{3000}'
}

/// The characters of `s`, in order.
pub fn chars_of(s: &str) -> (v: Vec<char>)
    ensures
        v@ == s@,
{
    let mut v: Vec<char> = Vec::new();
    for c in it: s.chars()
        invariant
            v@ == it.seq().take(it.index() as int),
    {
        v.push(c);
    }
    v
}

/// The index of the first `c` in `v`, or its length when there is none.
pub fn find_char(v: &Vec<char>, from: usize, c: char) -> (k: usize)
    requires
        from <= v.len(),
    ensures
        from <= k <= v.len(),
        k == from + first_index(v@.skip(from as int), c),
{
    let mut k = from;
    while k < v.len() && v[k] != c
        invariant
            from <= k <= v.len(),
            forall|i: int| from <= i < k ==> v@[i] != c,
        decreases v.len() - k,
    {
        k = k + 1;
    }
    proof {
        lemma_first_index(v@.skip(from as int), c, k - from);
    }
    k
}

/// `str::trim` on `line[from..]`, as a range of `line`: the trimmed text is
/// `line[a..b]`.
pub fn trimmed_range(v: &Vec<char>, from: usize) -> (r: (usize, usize))
    requires
        from <= v.len(),
    ensures
        from <= r.0 <= r.1 <= v.len(),
        v@.subrange(r.0 as int, r.1 as int) == trim(v@.skip(from as int)),
{
    let mut a = from;
    while a < v.len() && is_space_char(v[a])
        invariant
            from <= a <= v.len(),
            forall|i: int| from <= i < a ==> is_space(#[trigger] v@[i]),
        decreases v.len() - a,
    {
        a = a + 1;
    }
    let mut b = v.len();
    while b > a && is_space_char(v[b - 1])
        invariant
            a <= b <= v.len(),
            forall|i: int| b <= i < v.len() ==> is_space(#[trigger] v@[i]),
        decreases b,
    {
        b = b - 1;
    }
    proof {
        let t = v@.skip(from as int);
        assert forall|i: int| 0 <= i < a - from implies is_space(#[trigger] t[i]) by {
            assert(t[i] == v@[i + from]);
        }
        lemma_trim_start(t, a - from);
        let u = v@.skip(a as int);
        assert(t.skip(a - from) =~= u);
        assert forall|i: int| b - a <= i < u.len() implies is_space(#[trigger] u[i]) by {
            assert(u[i] == v@[i + a]);
        }
        if b > a {
            assert(u[b - a - 1] == v@[b - 1]);
        }
        lemma_trim_end(u, b - a);
        assert(u.take(b - a) =~= v@.subrange(a as int, b as int));
    }
    (a, b)
}

/// Whether `s` begins with `p`, as `str::starts_with` decides it.
pub fn starts_with(s: &Vec<char>, p: &str) -> (r: bool)
    ensures
        r == p@.is_prefix_of(s@),
{
    let pv = chars_of(p);
    if pv.len() > s.len() {
        return false;
    }
    let mut i: usize = 0;
    while i < pv.len()
        invariant
            pv@ == p@,
            pv.len() <= s.len(),
            0 <= i <= pv.len(),
            forall|j: int| 0 <= j < i ==> pv@[j] == s@[j],
        decreases pv.len() - i,
    {
        if pv[i] != s[i] {
            return false;
        }
        i = i + 1;
    }
    assert(s@.take(pv@.len() as int) =~= pv@);
    true
}

/// Whether `s` ends with `p`, as `str::ends_with` decides it.
pub fn ends_with(s: &Vec<char>, p: &str) -> (r: bool)
    ensures
        r == p@.is_suffix_of(s@),
{
    let pv = chars_of(p);
    if pv.len() > s.len() {
        return false;
    }
    let off = s.len() - pv.len();
    let mut i: usize = 0;
    while i < pv.len()
        invariant
            pv@ == p@,
            pv.len() <= s.len(),
            off == s.len() - pv.len(),
            0 <= i <= pv.len(),
            forall|j: int| 0 <= j < i ==> pv@[j] == s@[j + off],
        decreases pv.len() - i,
    {
        if pv[i] != s[off + i] {
            return false;
        }
        i = i + 1;
    }
    assert(s@.subrange(off as int, s@.len() as int) =~= pv@);
    true
}

/// The lines of `s`, as `str::lines` yields them.
pub fn lines_of(s: &str) -> (r: Vec<&str>)
    ensures
        r@.len() == lines(s@).len(),
        forall|i: int| 0 <= i < r@.len() ==> (#[trigger] r@[i])@ == lines(s@)[i],
{
    let v = chars_of(s);
    let mut r: Vec<&str> = Vec::new();
    let mut pos: usize = 0;
    let ghost mut done: Seq<Seq<char>> = Seq::empty();
    assert(s@.skip(0) =~= s@);
    assert(done + lines(s@) =~= lines(s@));
    while pos < v.len()
        invariant
            v@ == s@,
            pos <= v.len(),
            lines(s@) == done + lines(s@.skip(pos as int)),
            r@.len() == done.len(),
            forall|i: int| 0 <= i < r@.len() ==> (#[trigger] r@[i])@ == done[i],
        decreases v.len() - pos,
    {
        let ghost t = s@.skip(pos as int);
        let j = find_char(&v, pos, '\n');
        if j == v.len() {
            let line = s.substring_char(pos, v.len());
            proof {
                assert(t =~= s@.subrange(pos as int, v.len() as int));
                assert(lines(t) == seq![t]);
                assert(s@.skip(v.len() as int) =~= Seq::<char>::empty());
                done = done.push(t);
                assert(lines(s@) =~= done + lines(s@.skip(v.len() as int)));
            }
            r.push(line);
            pos = v.len();
        } else {
            let k = if j > pos && v[j - 1] == '\r' {
                j - 1
            } else {
                j
            };
            let line = s.substring_char(pos, k);
            proof {
                let e = (j - pos) as int;
                lemma_first_index_bound(t, '\n');
                assert(lines(t) == seq![strip_cr(t.take(e))] + lines(t.skip(e + 1)));
                assert(t.skip(e + 1) =~= s@.skip(j + 1));
                assert(strip_cr(t.take(e)) =~= s@.subrange(pos as int, k as int));
                done = done.push(s@.subrange(pos as int, k as int));
                assert(lines(s@) =~= done + lines(s@.skip(j + 1)));
            }
            r.push(line);
            pos = j + 1;
        }
    }
    proof {
        assert(s@.skip(pos as int) =~= Seq::<char>::empty());
        assert(done =~= lines(s@));
    }
    r
}

/// `str::split_once(':')` followed by `str::trim` on what comes after the colon.
pub fn value_after_colon(line: &str) -> (r: String)
    requires
        line@.contains(':'),
    ensures
        r@ == value_of(line@),
{
    let v = chars_of(line);
    let c = find_char(&v, 0, ':');
    proof {
        assert(v@.skip(0) =~= v@);
        lemma_first_index_bound(v@, ':');
    }
    let (a, b) = trimmed_range(&v, c + 1);
    String::from_str(line.substring_char(a, b))
}

/// A line that begins with a prefix holding a colon holds that colon.
pub proof fn lemma_prefix_has_colon(p: Seq<char>, line: Seq<char>)
    requires
        p.is_prefix_of(line),
        p.len() > 0,
        p.last() == ':',
    ensures
        line.contains(':'),
{
    assert(line[p.len() - 1] == p[p.len() - 1]);
}

/// `String::push` (std): appends `c`.
#[verifier::external_body]
pub fn push_char(s: &mut String, c: char)
    ensures
        final(s)@ == old(s)@.push(c),
{
    s.push(c);
}

/// `s` with every maximal run of white space replaced by `rep`, as a regular-expression
/// `\s+` replaced everywhere would leave it.
pub open spec fn replace_space_runs(s: Seq<char>, rep: Seq<char>) -> Seq<char>
    decreases s.len(),
{
    if s.len() == 0 {
        Seq::empty()
    } else {
        let init = replace_space_runs(s.drop_last(), rep);
        if !is_space(s.last()) {
            init.push(s.last())
        } else if s.len() >= 2 && is_space(s[s.len() - 2]) {
            init
        } else {
            init + rep
        }
    }
}

/// `s` without any `-`.
pub open spec fn without_dashes(s: Seq<char>) -> Seq<char>
    decreases s.len(),
{
    if s.len() == 0 {
        Seq::empty()
    } else if s.last() == '-' {
        without_dashes(s.drop_last())
    } else {
        without_dashes(s.drop_last()).push(s.last())
    }
}

/// A character that is no white space and occurs neither in `s` nor in `rep` does not occur
/// once the white space of `s` is replaced by `rep`.
pub proof fn lemma_replace_space_runs_keeps_out(s: Seq<char>, rep: Seq<char>, c: char)
    requires
        !is_space(c),
        !s.contains(c),
        !rep.contains(c),
    ensures
        !replace_space_runs(s, rep).contains(c),
    decreases s.len(),
{
    if s.len() > 0 {
        assert(!s.drop_last().contains(c)) by {
            if s.drop_last().contains(c) {
                let i = choose|i: int| 0 <= i < s.drop_last().len() && s.drop_last()[i] == c;
                assert(s[i] == c);
            }
        }
        lemma_replace_space_runs_keeps_out(s.drop_last(), rep, c);
        let init = replace_space_runs(s.drop_last(), rep);
        if !is_space(s.last()) {
            assert(s.last() != c) by {
                assert(s[s.len() - 1] == s.last());
            }
            assert forall|i: int| 0 <= i < init.push(s.last()).len() implies init.push(s.last())[i]
                != c by {
                if i < init.len() {
                    assert(init.push(s.last())[i] == init[i]);
                }
            }
        } else if s.len() >= 2 && is_space(s[s.len() - 2]) {
        } else {
            assert forall|i: int| 0 <= i < (init + rep).len() implies (init + rep)[i] != c by {
                if i < init.len() {
                    assert((init + rep)[i] == init[i]);
                } else {
                    assert((init + rep)[i] == rep[i - init.len()]);
                }
            }
        }
    }
}

/// Without white space in `rep`, replacing the white space of `s` by `rep` leaves none.
pub proof fn lemma_replace_space_runs_no_space(s: Seq<char>, rep: Seq<char>)
    requires
        has_no_space(rep),
    ensures
        has_no_space(replace_space_runs(s, rep)),
    decreases s.len(),
{
    if s.len() > 0 {
        lemma_replace_space_runs_no_space(s.drop_last(), rep);
        let init = replace_space_runs(s.drop_last(), rep);
        if !is_space(s.last()) {
            assert forall|i: int| 0 <= i < init.push(s.last()).len() implies !is_space(
                #[trigger] init.push(s.last())[i],
            ) by {
                if i < init.len() {
                    assert(init.push(s.last())[i] == init[i]);
                }
            }
        } else if s.len() >= 2 && is_space(s[s.len() - 2]) {
        } else {
            assert forall|i: int| 0 <= i < (init + rep).len() implies !is_space(
                #[trigger] (init + rep)[i],
            ) by {
                if i < init.len() {
                    assert((init + rep)[i] == init[i]);
                } else {
                    assert((init + rep)[i] == rep[i - init.len()]);
                }
            }
        }
    }
}

/// No `-` is left once the dashes are removed.
pub proof fn lemma_without_dashes_has_none(s: Seq<char>)
    ensures
        !without_dashes(s).contains('-'),
    decreases s.len(),
{
    if s.len() > 0 {
        lemma_without_dashes_has_none(s.drop_last());
        let w = without_dashes(s.drop_last());
        if s.last() != '-' {
            assert forall|i: int| 0 <= i < w.push(s.last()).len() implies w.push(s.last())[i]
                != '-' by {
                if i < w.len() {
                    assert(w.push(s.last())[i] == w[i]);
                }
            }
        }
    }
}

/// `s` with every `-` removed, as `str::replace("-", "")` gives it.
pub fn remove_dash_chars(s: &str) -> (r: String)
    ensures
        r@ == without_dashes(s@),
{
    let v = chars_of(s);
    let mut r = String::new();
    let mut i: usize = 0;
    while i < v.len()
        invariant
            v@ == s@,
            i <= v.len(),
            r@ == without_dashes(s@.take(i as int)),
        decreases v.len() - i,
    {
        proof {
            assert(s@.take(i + 1).drop_last() =~= s@.take(i as int));
        }
        if v[i] != '-' {
            push_char(&mut r, v[i]);
        }
        i = i + 1;
    }
    proof {
        assert(s@.take(v.len() as int) =~= s@);
    }
    r
}

/// Trimmed text neither begins nor ends with white space.
pub proof fn lemma_trim_has_no_outer_space(s: Seq<char>)
    ensures
        trim(s).len() > 0 ==> !is_space(trim(s)[0]) && !is_space(trim(s).last()),
        trim(s).len() <= s.len(),
{
    lemma_trim_start_shape(s);
    lemma_trim_end_shape(trim_start(s));
}

proof fn lemma_trim_start_shape(s: Seq<char>)
    ensures
        trim_start(s).len() > 0 ==> !is_space(trim_start(s)[0]),
        trim_start(s).len() <= s.len(),
    decreases s.len(),
{
    if s.len() > 0 && is_space(s[0]) {
        lemma_trim_start_shape(s.drop_first());
    }
}

proof fn lemma_trim_end_shape(s: Seq<char>)
    ensures
        trim_end(s).len() > 0 ==> !is_space(trim_end(s).last()),
        trim_end(s).len() > 0 && s.len() > 0 && !is_space(s[0]) ==> !is_space(trim_end(s)[0]),
        trim_end(s).len() <= s.len(),
        trim_end(s).len() > 0 ==> trim_end(s)[0] == s[0],
    decreases s.len(),
{
    if s.len() > 0 && is_space(s.last()) {
        lemma_trim_end_shape(s.drop_last());
    }
}

/// A final line ending is optional: text that does not already end a line yields the same
/// lines with or without a `\n` or `\r\n` after it.
pub proof fn lemma_final_line_ending_optional(s: Seq<char>)
    requires
        s.len() > 0,
        s.last() != '\n',
    ensures
        s.last() != '\r' ==> lines(s.push('\n')) == lines(s),
        lines(s + seq!['\r', '\n']) == lines(s),
    decreases s.len(),
{
    let t = s.push('\n');
    let n: int = s.len() as int;
    let u = s + seq!['\r', '\n'];
    lemma_first_index_bound(s, '\n');
    let e: int = first_index(s, '\n') as int;
    if e < s.len() {
        assert forall|i: int| 0 <= i < e implies t[i] != '\n' by {
            assert(t[i] == s[i]);
        }
        assert(t[e] == '\n');
        lemma_first_index(t, '\n', e);
        assert forall|i: int| 0 <= i < e implies u[i] != '\n' by {
            assert(u[i] == s[i]);
        }
        assert(u[e] == '\n');
        lemma_first_index(u, '\n', e);
        let rest = s.skip(e + 1);
        assert(e + 1 < s.len()) by {
            if e + 1 == s.len() {
                assert(s.last() == s[e]);
            }
        }
        assert(rest.last() == s.last());
        lemma_final_line_ending_optional(rest);
        assert(t.skip(e + 1) =~= rest.push('\n'));
        assert(u.skip(e + 1) =~= rest + seq!['\r', '\n']);
        assert(t.take(e) =~= s.take(e));
        assert(u.take(e) =~= s.take(e));
        assert(lines(s) == seq![strip_cr(s.take(e))] + lines(rest));
        assert(lines(u) == seq![strip_cr(u.take(e))] + lines(u.skip(e + 1)));
        if s.last() != '\r' {
            assert(lines(t) == seq![strip_cr(t.take(e))] + lines(t.skip(e + 1)));
        }
    } else {
        assert forall|i: int| 0 <= i < s.len() implies t[i] != '\n' by {
            assert(t[i] == s[i]);
        }
        lemma_first_index(t, '\n', s.len() as int);
        assert(t.take(s.len() as int) =~= s);
        assert(t.skip(n + 1) =~= Seq::<char>::empty());
        assert forall|i: int| 0 <= i < n + 1 implies u[i] != '\n' by {
            if i < s.len() {
                assert(u[i] == s[i]);
            } else {
                assert(u[i] == '\r');
            }
        }
        assert(u[n + 1] == '\n');
        lemma_first_index(u, '\n', n + 1);
        assert(u.take(n + 1) =~= s.push('\r'));
        assert(strip_cr(s.push('\r')) =~= s);
        assert(u.skip(n + 2) =~= Seq::<char>::empty());
        assert(lines(Seq::<char>::empty()) == Seq::<Seq<char>>::empty());
        assert(lines(s) == seq![s]);
        assert(lines(u) == seq![strip_cr(u.take(n + 1))] + lines(u.skip(n + 2)));
        assert(lines(u) =~= seq![s]);
        if s.last() != '\r' {
            assert(strip_cr(s) == s);
            assert(lines(t) == seq![strip_cr(t.take(n))] + lines(t.skip(n + 1)));
            assert(lines(t) =~= seq![s]);
        }
    }
}

/// `s` with all its white space removed.
pub open spec fn without_spaces(s: Seq<char>) -> Seq<char>
    decreases s.len(),
{
    if s.len() == 0 {
        Seq::empty()
    } else if is_space(s.last()) {
        without_spaces(s.drop_last())
    } else {
        without_spaces(s.drop_last()).push(s.last())
    }
}

/// Text without white space is left as it is when its white space is replaced: replacing
/// white space runs a second time changes nothing.
pub proof fn lemma_replace_space_runs_no_op(s: Seq<char>, rep: Seq<char>)
    requires
        has_no_space(s),
    ensures
        replace_space_runs(s, rep) == s,
    decreases s.len(),
{
    if s.len() > 0 {
        assert(!is_space(s[s.len() - 1]));
        lemma_replace_space_runs_no_op(s.drop_last(), rep);
        assert(s.drop_last().push(s.last()) =~= s);
    }
}

/// Replacing each run of white space by nothing removes all white space.
pub proof fn lemma_replace_space_runs_by_nothing(s: Seq<char>)
    ensures
        replace_space_runs(s, Seq::empty()) == without_spaces(s),
    decreases s.len(),
{
    if s.len() > 0 {
        lemma_replace_space_runs_by_nothing(s.drop_last());
        let init = replace_space_runs(s.drop_last(), Seq::empty());
        assert(init + Seq::<char>::empty() =~= init);
    }
}

proof fn lemma_dash_runs_then_no_dashes(s: Seq<char>)
    ensures
        without_dashes(replace_space_runs(s, seq!['-'])) == without_dashes(without_spaces(s)),
    decreases s.len(),
{
    if s.len() > 0 {
        lemma_dash_runs_then_no_dashes(s.drop_last());
        let init = replace_space_runs(s.drop_last(), seq!['-']);
        if !is_space(s.last()) {
            assert(init.push(s.last()).drop_last() =~= init);
            assert(without_spaces(s.drop_last()).push(s.last()).drop_last() =~= without_spaces(
                s.drop_last(),
            ));
        } else if s.len() >= 2 && is_space(s[s.len() - 2]) {
        } else {
            assert((init + seq!['-']).drop_last() =~= init);
        }
    }
}

proof fn lemma_no_dashes_no_spaces_commute(s: Seq<char>)
    ensures
        without_dashes(without_spaces(s)) == without_spaces(without_dashes(s)),
    decreases s.len(),
{
    if s.len() > 0 {
        lemma_no_dashes_no_spaces_commute(s.drop_last());
        let c = s.last();
        let ws = without_spaces(s.drop_last());
        let wd = without_dashes(s.drop_last());
        assert(ws.push(c).drop_last() =~= ws);
        assert(wd.push(c).drop_last() =~= wd);
        if c == '-' {
            assert(!is_space(c));
        }
    }
}

/// Making each run of white space a dash and then removing the dashes comes to removing the
/// dashes and then all white space.
pub proof fn lemma_dash_runs_then_no_dashes_is_no_dashes_then_no_spaces(s: Seq<char>)
    ensures
        without_dashes(replace_space_runs(s, seq!['-'])) == replace_space_runs(
            without_dashes(s),
            Seq::empty(),
        ),
{
    lemma_dash_runs_then_no_dashes(s);
    lemma_no_dashes_no_spaces_commute(s);
    lemma_replace_space_runs_by_nothing(without_dashes(s));
}

/// Every character of `replace_space_runs(s, rep)` comes from `s` or from `rep`.
pub proof fn lemma_replace_space_runs_chars(s: Seq<char>, rep: Seq<char>)
    ensures
        forall|i: int|
            0 <= i < replace_space_runs(s, rep).len() ==> s.contains(
                #[trigger] replace_space_runs(s, rep)[i],
            ) || rep.contains(replace_space_runs(s, rep)[i]),
    decreases s.len(),
{
    if s.len() > 0 {
        lemma_replace_space_runs_chars(s.drop_last(), rep);
        let init = replace_space_runs(s.drop_last(), rep);
        let r = replace_space_runs(s, rep);
        assert forall|i: int| 0 <= i < r.len() implies s.contains(#[trigger] r[i]) || rep.contains(
            r[i],
        ) by {
            if i < init.len() {
                assert(r[i] == init[i]);
                if s.drop_last().contains(init[i]) {
                    let j = choose|j: int| 0 <= j < s.drop_last().len() && s.drop_last()[j] == init[i];
                    assert(s[j] == init[i]);
                }
            } else if !is_space(s.last()) {
                assert(r[i] == s[s.len() - 1]);
            } else {
                assert(r[i] == rep[i - init.len()]);
            }
        }
    }
}

/// Every character of `without_dashes(s)` comes from `s`.
pub proof fn lemma_without_dashes_chars(s: Seq<char>)
    ensures
        forall|i: int| 0 <= i < without_dashes(s).len() ==> s.contains(#[trigger] without_dashes(s)[i]),
    decreases s.len(),
{
    if s.len() > 0 {
        lemma_without_dashes_chars(s.drop_last());
        let w = without_dashes(s.drop_last());
        assert forall|i: int| 0 <= i < without_dashes(s).len() implies s.contains(
            #[trigger] without_dashes(s)[i],
        ) by {
            if i < w.len() {
                assert(without_dashes(s)[i] == w[i]);
                let j = choose|j: int| 0 <= j < s.drop_last().len() && s.drop_last()[j] == w[i];
                assert(s[j] == w[i]);
            } else {
                assert(without_dashes(s)[i] == s[s.len() - 1]);
            }
        }
    }
}

/// Text holding white space keeps the first character of the replacement once its white
/// space is replaced.
pub proof fn lemma_replace_space_runs_shows_rep(s: Seq<char>, rep: Seq<char>, k: int)
    requires
        0 <= k < s.len(),
        is_space(s[k]),
        rep.len() > 0,
    ensures
        replace_space_runs(s, rep).contains(rep[0]),
    decreases s.len(),
{
    let init = replace_space_runs(s.drop_last(), rep);
    if k < s.len() - 1 {
        assert(s.drop_last()[k] == s[k]);
        lemma_replace_space_runs_shows_rep(s.drop_last(), rep, k);
        let j = choose|j: int| 0 <= j < init.len() && init[j] == rep[0];
        if !is_space(s.last()) {
            assert(init.push(s.last())[j] == rep[0]);
        } else if s.len() >= 2 && is_space(s[s.len() - 2]) {
        } else {
            assert((init + rep)[j] == rep[0]);
        }
    } else if s.len() >= 2 && is_space(s[s.len() - 2]) {
        assert(s.drop_last()[s.len() - 2] == s[s.len() - 2]);
        lemma_replace_space_runs_shows_rep(s.drop_last(), rep, s.len() - 2);
    } else {
        assert((init + rep)[init.len() as int] == rep[0]);
    }
}

/// Text without dashes is left as it is when its dashes are removed.
pub proof fn lemma_without_dashes_no_op(s: Seq<char>)
    requires
        !s.contains('-'),
    ensures
        without_dashes(s) == s,
    decreases s.len(),
{
    if s.len() > 0 {
        assert(s[s.len() - 1] != '-');
        assert(!s.drop_last().contains('-')) by {
            if s.drop_last().contains('-') {
                let j = choose|j: int| 0 <= j < s.drop_last().len() && s.drop_last()[j] == '-';
                assert(s[j] == '-');
            }
        }
        lemma_without_dashes_no_op(s.drop_last());
        assert(s.drop_last().push(s.last()) =~= s);
    }
}

/// Making each run of white space a dash a second time changes nothing, and removing the
/// dashes afterwards comes to removing the dashes and then all white space.
pub proof fn lemma_dash_replacement_laws(s: Seq<char>)
    ensures
        replace_space_runs(replace_space_runs(s, seq!['-']), seq!['-']) == replace_space_runs(
            s,
            seq!['-'],
        ),
        without_dashes(replace_space_runs(s, seq!['-'])) == replace_space_runs(
            without_dashes(s),
            Seq::empty(),
        ),
{
    assert(has_no_space(seq!['-']));
    lemma_replace_space_runs_no_space(s, seq!['-']);
    lemma_replace_space_runs_no_op(replace_space_runs(s, seq!['-']), seq!['-']);
    lemma_dash_runs_then_no_dashes_is_no_dashes_then_no_spaces(s);
}

/// Removing dashes from joined text removes them from each part.
pub proof fn lemma_without_dashes_concat(u: Seq<char>, v: Seq<char>)
    ensures
        without_dashes(u + v) == without_dashes(u) + without_dashes(v),
    decreases v.len(),
{
    if v.len() == 0 {
        assert(u + v =~= u);
        assert(without_dashes(u) + Seq::<char>::empty() =~= without_dashes(u));
    } else {
        lemma_without_dashes_concat(u, v.drop_last());
        assert((u + v).drop_last() =~= u + v.drop_last());
        assert((u + v).last() == v.last());
        assert((without_dashes(u) + without_dashes(v.drop_last())).push(v.last()) =~= without_dashes(
            u,
        ) + without_dashes(v.drop_last()).push(v.last()));
    }
}

/// Removing white space from joined text removes it from each part.
pub proof fn lemma_without_spaces_concat(u: Seq<char>, v: Seq<char>)
    ensures
        without_spaces(u + v) == without_spaces(u) + without_spaces(v),
    decreases v.len(),
{
    if v.len() == 0 {
        assert(u + v =~= u);
        assert(without_spaces(u) + Seq::<char>::empty() =~= without_spaces(u));
    } else {
        lemma_without_spaces_concat(u, v.drop_last());
        assert((u + v).drop_last() =~= u + v.drop_last());
        assert((u + v).last() == v.last());
        assert((without_spaces(u) + without_spaces(v.drop_last())).push(v.last()) =~= without_spaces(
            u,
        ) + without_spaces(v.drop_last()).push(v.last()));
    }
}

/// A character other than a dash survives the removal of dashes.
pub proof fn lemma_without_dashes_keeps(s: Seq<char>, k: int)
    requires
        0 <= k < s.len(),
        s[k] != '-',
    ensures
        without_dashes(s).contains(s[k]),
    decreases s.len(),
{
    if k < s.len() - 1 {
        assert(s.drop_last()[k] == s[k]);
        lemma_without_dashes_keeps(s.drop_last(), k);
        let w = without_dashes(s.drop_last());
        let j = choose|j: int| 0 <= j < w.len() && w[j] == s[k];
        if s.last() != '-' {
            assert(w.push(s.last())[j] == s[k]);
        }
    } else {
        let w = without_dashes(s.drop_last());
        assert(w.push(s.last())[w.len() as int] == s[k]);
    }
}

/// A character other than white space survives the removal of white space.
pub proof fn lemma_without_spaces_keeps(s: Seq<char>, k: int)
    requires
        0 <= k < s.len(),
        !is_space(s[k]),
    ensures
        without_spaces(s).contains(s[k]),
    decreases s.len(),
{
    if k < s.len() - 1 {
        assert(s.drop_last()[k] == s[k]);
        lemma_without_spaces_keeps(s.drop_last(), k);
        let w = without_spaces(s.drop_last());
        let j = choose|j: int| 0 <= j < w.len() && w[j] == s[k];
        if !is_space(s.last()) {
            assert(w.push(s.last())[j] == s[k]);
        }
    } else {
        let w = without_spaces(s.drop_last());
        assert(w.push(s.last())[w.len() as int] == s[k]);
    }
}

/// A character other than white space survives the replacement of white space.
pub proof fn lemma_replace_space_runs_keeps(s: Seq<char>, rep: Seq<char>, k: int)
    requires
        0 <= k < s.len(),
        !is_space(s[k]),
    ensures
        replace_space_runs(s, rep).contains(s[k]),
    decreases s.len(),
{
    let init = replace_space_runs(s.drop_last(), rep);
    if k < s.len() - 1 {
        assert(s.drop_last()[k] == s[k]);
        lemma_replace_space_runs_keeps(s.drop_last(), rep, k);
        let j = choose|j: int| 0 <= j < init.len() && init[j] == s[k];
        if !is_space(s.last()) {
            assert(init.push(s.last())[j] == s[k]);
        } else if s.len() >= 2 && is_space(s[s.len() - 2]) {
        } else {
            assert((init + rep)[j] == s[k]);
        }
    } else {
        assert(init.push(s.last())[init.len() as int] == s[k]);
    }
}

/// A line that begins with `p` holds the characters of `p` at their places.
pub proof fn lemma_prefix_char(p: Seq<char>, line: Seq<char>, i: int)
    requires
        p.is_prefix_of(line),
        0 <= i < p.len(),
    ensures
        line[i] == p[i],
{
    assert(line.subrange(0, p.len() as int)[i] == line[i]);
}

/// Characters that are neither white space nor a dash.
pub open spec fn plain_char() -> spec_fn(char) -> bool {
    |c: char| !is_space(c) && c != '-'
}

/// Removing the dashes and then the white space keeps exactly the other characters, in order.
pub proof fn lemma_no_dashes_no_spaces_is_filter(s: Seq<char>)
    ensures
        without_spaces(without_dashes(s)) == s.filter(plain_char()),
    decreases s.len(),
{
    reveal(Seq::filter);
    if s.len() > 0 {
        lemma_no_dashes_no_spaces_is_filter(s.drop_last());
        let c = s.last();
        let wd = without_dashes(s.drop_last());
        assert(wd.push(c).drop_last() =~= wd);
        assert(wd.push(c).last() == c);
        let ws = without_spaces(wd);
        if c != '-' && !is_space(c) {
            assert(without_spaces(wd.push(c)) == ws.push(c));
        }
    } else {
        assert(without_dashes(s) == Seq::<char>::empty());
        assert(without_spaces(Seq::<char>::empty()) == Seq::<char>::empty());
    }
}

} // verus!
