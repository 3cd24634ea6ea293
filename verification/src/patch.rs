//! The settings patcher: a streaming, line-oriented text transform.
//!
//! The curated settings template is patched line by line.  A line holding
//! the installed-apps marker has the new application's identifier inserted
//! before the marker, the marker itself re-emitted so that later runs can
//! layer further applications.  A line holding the project-name placeholder
//! has every occurrence of the placeholder replaced by the actual project
//! name.  Every other line passes through unchanged.

use vstd::prelude::*;

verus! {

/// `pat` occurs in `s` starting at index `i`.
pub open spec fn matches_at(s: Seq<char>, pat: Seq<char>, i: int) -> bool {
    0 <= i && i + pat.len() <= s.len() && s.subrange(i, i + pat.len()) == pat
}

/// `pat` occurs somewhere in `s`.
pub open spec fn contains_pattern(s: Seq<char>, pat: Seq<char>) -> bool {
    exists|i: int| matches_at(s, pat, i)
}

/// Left-to-right, non-overlapping replacement of every occurrence of `pat`
/// in `s` by `repl`, as the standard string replacement performs it.
pub open spec fn replace_all(s: Seq<char>, pat: Seq<char>, repl: Seq<char>) -> Seq<char>
    decreases s.len(),
{
    if pat.len() == 0 || s.len() < pat.len() {
        s
    } else if s.subrange(0, pat.len() as int) == pat {
        repl + replace_all(s.skip(pat.len() as int), pat, repl)
    } else {
        seq![s[0]] + replace_all(s.skip(1), pat, repl)
    }
}

/// How many occurrences of `pat` the left-to-right scan of `s` replaces.
pub open spec fn occ_count(s: Seq<char>, pat: Seq<char>) -> nat
    decreases s.len(),
{
    if pat.len() == 0 || s.len() < pat.len() {
        0
    } else if s.subrange(0, pat.len() as int) == pat {
        1 + occ_count(s.skip(pat.len() as int), pat)
    } else {
        occ_count(s.skip(1), pat)
    }
}

/// The number of occurrences of the character `c` in `s`.
pub open spec fn count_char(s: Seq<char>, c: char) -> nat
    decreases s.len(),
{
    if s.len() == 0 {
        0
    } else {
        (if s[0] == c { 1nat } else { 0nat }) + count_char(s.skip(1), c)
    }
}

/// `s` holds no newline character.
pub open spec fn has_no_newline(s: Seq<char>) -> bool {
    forall|i: int| 0 <= i < s.len() ==> s[i] != '\n'
}

/// `s` cut at every newline character; the newlines themselves are dropped.
/// The empty text yields one empty line, and each newline ends a line, so
/// the result always holds exactly one more line than `s` holds newlines.
pub open spec fn split_lines(s: Seq<char>) -> Seq<Seq<char>>
    decreases s.len(),
{
    if s.len() == 0 {
        seq![Seq::<char>::empty()]
    } else if s[0] == '\n' {
        seq![Seq::<char>::empty()] + split_lines(s.skip(1))
    } else {
        let rest = split_lines(s.skip(1));
        seq![seq![s[0]] + rest[0]] + rest.skip(1)
    }
}

/// The marker substring that names the installed-apps insertion point.
pub open spec fn marker() -> Seq<char> {
    "##django apps##"@
}

/// The line content inserted for the new application.
pub open spec fn app_line() -> Seq<char> {
    "'users',"@
}

/// What each marker occurrence is rewritten to: the new application's
/// entry, a line break, then the marker again on an indented line.
pub open spec fn app_insertion() -> Seq<char> {
    app_line() + seq!['\n'] + seq!['\t'] + marker()
}

/// The placeholder token that stands for the project's package name.
pub open spec fn placeholder() -> Seq<char> {
    "project_name"@
}

/// The transform of one template line.  A marker line is rewritten and cut
/// into lines again (the rewrite introduces a line break per occurrence); a
/// placeholder line has the placeholder replaced throughout; any other line
/// passes through as it is.
pub open spec fn patch_line_spec(line: Seq<char>, name: Seq<char>) -> Seq<Seq<char>> {
    if contains_pattern(line, marker()) {
        split_lines(replace_all(line, marker(), app_insertion()))
    } else if contains_pattern(line, placeholder()) {
        seq![replace_all(line, placeholder(), name)]
    } else {
        seq![line]
    }
}

/// The transform of the whole template: each line patched in order, the
/// results concatenated.
pub open spec fn patch_template_spec(lines: Seq<Seq<char>>, name: Seq<char>) -> Seq<Seq<char>>
    decreases lines.len(),
{
    if lines.len() == 0 {
        Seq::empty()
    } else {
        patch_line_spec(lines[0], name) + patch_template_spec(lines.skip(1), name)
    }
}

/// Counting characters distributes over concatenation.
pub proof fn lemma_count_char_add(a: Seq<char>, b: Seq<char>, c: char)
    ensures
        count_char(a + b, c) == count_char(a, c) + count_char(b, c),
    decreases a.len(),
{
    if a.len() == 0 {
        assert(a + b =~= b);
    } else {
        assert((a + b)[0] == a[0]);
        assert((a + b).skip(1) =~= a.skip(1) + b);
        lemma_count_char_add(a.skip(1), b, c);
    }
}

/// A character is absent exactly when its count is zero.
pub proof fn lemma_count_char_zero(s: Seq<char>, c: char)
    ensures
        (count_char(s, c) == 0) <==> (forall|i: int| 0 <= i < s.len() ==> s[i] != c),
    decreases s.len(),
{
    if s.len() == 0 {
    } else {
        lemma_count_char_zero(s.skip(1), c);
        assert(forall|i: int| 1 <= i < s.len() ==> s[i] == s.skip(1)[i - 1]);
    }
}

/// The shapes of the fixed patterns: their lengths, that none of the
/// single-line patterns holds a newline, and that the rewrite of a marker
/// occurrence introduces exactly one newline.
pub proof fn lemma_pattern_shapes()
    ensures
        marker().len() == 15,
        placeholder().len() == 12,
        app_line().len() == 8,
        has_no_newline(marker()),
        has_no_newline(placeholder()),
        has_no_newline(app_line()),
        count_char(marker(), '\n') == 0,
        count_char(placeholder(), '\n') == 0,
        count_char(app_insertion(), '\n') == 1,
{
    reveal_strlit("##django apps##");
    reveal_strlit("project_name");
    reveal_strlit("'users',");
    lemma_count_char_zero(marker(), '\n');
    lemma_count_char_zero(placeholder(), '\n');
    lemma_count_char_zero(app_line(), '\n');
    let tail2 = seq!['\t'] + marker();
    let tail1 = seq!['\n'] + tail2;
    assert(app_insertion() =~= app_line() + tail1);
    lemma_count_char_add(app_line(), tail1, '\n');
    lemma_count_char_add(seq!['\n'], tail2, '\n');
    lemma_count_char_add(seq!['\t'], marker(), '\n');
    assert(count_char(seq!['\n'], '\n') == 1) by {
        reveal_with_fuel(count_char, 3);
        assert(seq!['\n'].skip(1) =~= Seq::<char>::empty());
    }
    assert(count_char(seq!['\t'], '\n') == 0) by {
        reveal_with_fuel(count_char, 3);
        assert(seq!['\t'].skip(1) =~= Seq::<char>::empty());
    }
}

/// The characters of a string, as a vector.
fn str_to_chars(s: &str) -> (v: Vec<char>)
    ensures
        v@ == s@,
{
    let n = s.unicode_len();
    let mut v: Vec<char> = Vec::new();
    let mut i: usize = 0;
    while i < n
        invariant
            n == s@.len(),
            i <= n,
            v@ == s@.take(i as int),
        decreases n - i,
    {
        let c = s.get_char(i);
        v.push(c);
        proof {
            assert(s@.take(i + 1) =~= s@.take(i as int).push(s@[i as int]));
        }
        i += 1;
    }
    proof {
        assert(s@.take(n as int) =~= s@);
    }
    v
}

/// A fresh copy of a character vector.
fn copy_chars(s: &Vec<char>) -> (v: Vec<char>)
    ensures
        v@ == s@,
{
    let mut v: Vec<char> = Vec::new();
    let mut i: usize = 0;
    while i < s.len()
        invariant
            i <= s@.len(),
            v@ == s@.take(i as int),
        decreases s@.len() - i,
    {
        v.push(s[i]);
        proof {
            assert(s@.take(i + 1) =~= s@.take(i as int).push(s@[i as int]));
        }
        i += 1;
    }
    proof {
        assert(s@.take(s@.len() as int) =~= s@);
    }
    v
}

/// The marker pattern as a vector.
fn marker_chars() -> (v: Vec<char>)
    ensures
        v@ == marker(),
        v@.len() == 15,
{
    proof {
        lemma_pattern_shapes();
    }
    str_to_chars("##django apps##")
}

/// The placeholder pattern as a vector.
fn placeholder_chars() -> (v: Vec<char>)
    ensures
        v@ == placeholder(),
        v@.len() == 12,
{
    proof {
        lemma_pattern_shapes();
    }
    str_to_chars("project_name")
}

/// The marker rewrite as a vector.
fn app_insertion_chars() -> (v: Vec<char>)
    ensures
        v@ == app_insertion(),
{
    let v = str_to_chars("'users',\n\t##django apps##");
    proof {
        reveal_strlit("'users',\n\t##django apps##");
        reveal_strlit("'users',");
        reveal_strlit("##django apps##");
        assert(v@ =~= app_insertion());
    }
    v
}

/// Whether `pat` occurs in `s` at position `i`.
fn match_at_exec(s: &Vec<char>, pat: &Vec<char>, i: usize) -> (b: bool)
    requires
        i <= s@.len(),
    ensures
        b == matches_at(s@, pat@, i as int),
{
    if s.len() - i < pat.len() {
        proof {
            assert(!matches_at(s@, pat@, i as int));
        }
        return false;
    }
    let mut j: usize = 0;
    while j < pat.len()
        invariant
            j <= pat@.len(),
            i + pat@.len() <= s@.len(),
            s@.len() <= usize::MAX,
            forall|k: int| 0 <= k < j ==> s@[i + k] == pat@[k],
        decreases pat@.len() - j,
    {
        if s[i + j] != pat[j] {
            proof {
                assert(!matches_at(s@, pat@, i as int)) by {
                    if matches_at(s@, pat@, i as int) {
                        assert(s@.subrange(i as int, i + pat@.len()) == pat@);
                        assert(s@.subrange(i as int, i + pat@.len())[j as int] == s@[i + j]);
                    }
                }
            }
            return false;
        }
        j += 1;
    }
    proof {
        assert(s@.subrange(i as int, i + pat@.len()) =~= pat@);
    }
    true
}

/// Whether `pat` occurs anywhere in `s`.
fn contains_pattern_exec(s: &Vec<char>, pat: &Vec<char>) -> (b: bool)
    requires
        pat@.len() >= 1,
    ensures
        b == contains_pattern(s@, pat@),
{
    let mut i: usize = 0;
    while i < s.len()
        invariant
            i <= s@.len(),
            pat@.len() >= 1,
            forall|k: int| 0 <= k < i ==> !matches_at(s@, pat@, k),
        decreases s@.len() - i,
    {
        if match_at_exec(s, pat, i) {
            assert(contains_pattern(s@, pat@));
            return true;
        }
        i += 1;
    }
    proof {
        assert(forall|k: int| i <= k ==> !matches_at(s@, pat@, k));
        assert(!contains_pattern(s@, pat@));
    }
    false
}

/// Replace every occurrence of `pat` in `s` by `repl`, scanning left to
/// right without overlap.
fn replace_all_exec(s: &Vec<char>, pat: &Vec<char>, repl: &Vec<char>) -> (r: Vec<char>)
    requires
        pat@.len() >= 1,
    ensures
        r@ == replace_all(s@, pat@, repl@),
{
    let mut out: Vec<char> = Vec::new();
    let mut i: usize = 0;
    let n = s.len();
    proof {
        assert(s@.skip(0) =~= s@);
        assert(out@ + replace_all(s@, pat@, repl@) =~= replace_all(s@, pat@, repl@));
    }
    while i < n
        invariant
            i <= s@.len(),
            n == s@.len(),
            pat@.len() >= 1,
            replace_all(s@, pat@, repl@) == out@ + replace_all(s@.skip(i as int), pat@, repl@),
        decreases s@.len() - i,
    {
        let ghost pre = s@.skip(i as int);
        if match_at_exec(s, pat, i) {
            let mut piece = copy_chars(repl);
            let ghost out0 = out@;
            out.append(&mut piece);
            proof {
                assert(pre.subrange(0, pat@.len() as int) =~= s@.subrange(
                    i as int,
                    i + pat@.len(),
                ));
                assert(pre.subrange(0, pat@.len() as int) == pat@);
                assert(replace_all(pre, pat@, repl@) == repl@ + replace_all(
                    pre.skip(pat@.len() as int),
                    pat@,
                    repl@,
                ));
                assert(pre.skip(pat@.len() as int) =~= s@.skip(i + pat@.len()));
                assert(out0 + (repl@ + replace_all(s@.skip(i + pat@.len()), pat@, repl@)) =~= (out0
                    + repl@) + replace_all(s@.skip(i + pat@.len()), pat@, repl@));
            }
            i = i + pat.len();
        } else {
            out.push(s[i]);
            proof {
                let ghost rest = s@.skip(i + 1);
                assert(pre[0] == s@[i as int]);
                assert(pre.skip(1) =~= rest);
                if pre.len() < pat@.len() {
                    assert(replace_all(pre, pat@, repl@) == pre);
                    assert(replace_all(rest, pat@, repl@) == rest);
                    assert(pre =~= seq![s@[i as int]] + rest);
                } else {
                    assert(pre.subrange(0, pat@.len() as int) =~= s@.subrange(
                        i as int,
                        i + pat@.len(),
                    ));
                    assert(pre.subrange(0, pat@.len() as int) != pat@);
                    assert(replace_all(pre, pat@, repl@) == seq![pre[0]] + replace_all(
                        rest,
                        pat@,
                        repl@,
                    ));
                }
                assert(out@ =~= out@.drop_last().push(s@[i as int]));
                assert(out@.drop_last() + (seq![s@[i as int]] + replace_all(rest, pat@, repl@))
                    =~= out@ + replace_all(rest, pat@, repl@));
            }
            i = i + 1;
        }
    }
    proof {
        assert(s@.skip(s@.len() as int) =~= Seq::<char>::empty());
        assert(replace_all(Seq::<char>::empty(), pat@, repl@) == Seq::<char>::empty());
        assert(out@ + Seq::<char>::empty() =~= out@);
    }
    out
}

/// A text always splits into at least one line.
pub proof fn lemma_split_lines_nonempty(s: Seq<char>)
    ensures
        split_lines(s).len() >= 1,
    decreases s.len(),
{
    if s.len() == 0 {
    } else if s[0] == '\n' {
    } else {
        lemma_split_lines_nonempty(s.skip(1));
    }
}

/// `parts` with `c` glued onto the front of its first element.
spec fn prepend_first(c: Seq<char>, parts: Seq<Seq<char>>) -> Seq<Seq<char>> {
    seq![c + parts[0]] + parts.skip(1)
}

/// Cut `s` at every newline, dropping the newlines.
fn split_lines_exec(s: &Vec<char>) -> (r: Vec<Vec<char>>)
    ensures
        r.deep_view() == split_lines(s@),
{
    let mut done: Vec<Vec<char>> = Vec::new();
    let mut cur: Vec<char> = Vec::new();
    let mut i: usize = 0;
    proof {
        lemma_split_lines_nonempty(s@);
        assert(prepend_first(Seq::<char>::empty(), split_lines(s@)) =~= split_lines(s@)) by {
            assert(Seq::<char>::empty() + split_lines(s@)[0] =~= split_lines(s@)[0]);
        }
        assert(done.deep_view() =~= Seq::<Seq<char>>::empty());
        assert(Seq::<Seq<char>>::empty() + prepend_first(cur@, split_lines(s@.skip(0)))
            =~= prepend_first(cur@, split_lines(s@.skip(0))));
        assert(s@.skip(0) =~= s@);
    }
    while i < s.len()
        invariant
            i <= s@.len(),
            split_lines(s@) == done.deep_view() + prepend_first(
                cur@,
                split_lines(s@.skip(i as int)),
            ),
        decreases s@.len() - i,
    {
        let ghost pre = s@.skip(i as int);
        let ghost done0 = done.deep_view();
        let ghost cur0 = cur@;
        proof {
            assert(pre[0] == s@[i as int]);
            assert(pre.skip(1) =~= s@.skip(i + 1));
            lemma_split_lines_nonempty(s@.skip(i + 1));
        }
        let c = s[i];
        if c == '\n' {
            done.push(cur);
            cur = Vec::new();
            proof {
                let rest = split_lines(s@.skip(i + 1));
                assert(split_lines(pre) == seq![Seq::<char>::empty()] + rest);
                assert(prepend_first(cur0, split_lines(pre)) =~= seq![cur0] + rest) by {
                    assert((seq![Seq::<char>::empty()] + rest)[0] =~= Seq::<char>::empty());
                    assert(cur0 + Seq::<char>::empty() =~= cur0);
                    assert((seq![Seq::<char>::empty()] + rest).skip(1) =~= rest);
                }
                assert(done.deep_view() =~~= done0.push(cur0));
                assert(prepend_first(cur@, rest) =~= seq![Seq::<char>::empty() + rest[0]]
                    + rest.skip(1));
                assert(Seq::<char>::empty() + rest[0] =~= rest[0]);
                assert(seq![rest[0]] + rest.skip(1) =~= rest);
                assert(done0.push(cur0) + rest =~= done0 + (seq![cur0] + rest));
            }
        } else {
            cur.push(c);
            proof {
                let rest = split_lines(s@.skip(i + 1));
                assert(split_lines(pre) == seq![seq![pre[0]] + rest[0]] + rest.skip(1));
                assert(prepend_first(cur0, split_lines(pre)) =~= prepend_first(cur@, rest)) by {
                    assert((seq![seq![pre[0]] + rest[0]] + rest.skip(1))[0] == seq![pre[0]]
                        + rest[0]);
                    assert(cur0 + (seq![pre[0]] + rest[0]) =~= cur0.push(s@[i as int]) + rest[0]);
                    assert((seq![seq![pre[0]] + rest[0]] + rest.skip(1)).skip(1) =~= rest.skip(1));
                }
            }
        }
        i += 1;
    }
    proof {
        assert(s@.skip(s@.len() as int) =~= Seq::<char>::empty());
        assert(split_lines(Seq::<char>::empty()) == seq![Seq::<char>::empty()]);
    }
    let ghost done1 = done.deep_view();
    let ghost cur1 = cur@;
    done.push(cur);
    proof {
        assert(done.deep_view() =~~= done1.push(cur1));
        assert(prepend_first(cur1, seq![Seq::<char>::empty()]) =~= seq![cur1]) by {
            assert(seq![Seq::<char>::empty()].skip(1) =~= Seq::<Seq<char>>::empty());
            assert(cur1 + Seq::<char>::empty() =~= cur1);
            assert(seq![cur1 + Seq::<char>::empty()] + Seq::<Seq<char>>::empty() =~= seq![cur1
                + Seq::<char>::empty()]);
        }
        assert(done1.push(cur1) =~= done1 + seq![cur1]);
    }
    done
}

/// Patch one template line: insert the new application before the marker
/// (re-emitting the marker), or substitute the project name for the
/// placeholder, or pass the line through unchanged.
pub fn patch_line(line: &Vec<char>, name: &Vec<char>) -> (out: Vec<Vec<char>>)
    ensures
        out.deep_view() == patch_line_spec(line@, name@),
{
    let m = marker_chars();
    if contains_pattern_exec(line, &m) {
        let ins = app_insertion_chars();
        let replaced = replace_all_exec(line, &m, &ins);
        split_lines_exec(&replaced)
    } else {
        let ph = placeholder_chars();
        let mut out: Vec<Vec<char>> = Vec::new();
        if contains_pattern_exec(line, &ph) {
            let replaced = replace_all_exec(line, &ph, name);
            let ghost rview = replaced@;
            out.push(replaced);
            proof {
                assert(out.deep_view() =~~= seq![rview]);
            }
        } else {
            let copy = copy_chars(line);
            out.push(copy);
            proof {
                assert(out.deep_view() =~~= seq![line@]);
            }
        }
        out
    }
}

/// Patch a whole template: every line transformed in order, the resulting
/// lines concatenated.
pub fn patch_template(lines: &Vec<Vec<char>>, name: &Vec<char>) -> (out: Vec<Vec<char>>)
    ensures
        out.deep_view() == patch_template_spec(lines.deep_view(), name@),
{
    let ghost ldv = lines.deep_view();
    let mut out: Vec<Vec<char>> = Vec::new();
    let mut i: usize = 0;
    let n = lines.len();
    proof {
        assert(ldv.skip(0) =~= ldv);
        assert(out.deep_view() =~= Seq::<Seq<char>>::empty());
        assert(Seq::<Seq<char>>::empty() + patch_template_spec(ldv, name@) =~= patch_template_spec(
            ldv,
            name@,
        ));
    }
    while i < n
        invariant
            i <= ldv.len(),
            n == ldv.len(),
            ldv == lines.deep_view(),
            ldv.len() == lines@.len(),
            patch_template_spec(ldv, name@) == out.deep_view() + patch_template_spec(
                ldv.skip(i as int),
                name@,
            ),
        decreases ldv.len() - i,
    {
        let ghost out0 = out.deep_view();
        let mut parts = patch_line(&lines[i], name);
        let ghost pview = parts.deep_view();
        out.append(&mut parts);
        proof {
            assert(lines@[i as int].deep_view() =~= lines@[i as int]@);
            assert(ldv.skip(i as int)[0] == ldv[i as int]);
            assert(ldv.skip(i as int).skip(1) =~= ldv.skip(i + 1));
            assert(patch_template_spec(ldv.skip(i as int), name@) == patch_line_spec(
                ldv[i as int],
                name@,
            ) + patch_template_spec(ldv.skip(i + 1), name@));
            assert(out.deep_view() =~~= out0 + pview);
            assert((out0 + pview) + patch_template_spec(ldv.skip(i + 1), name@) =~= out0 + (pview
                + patch_template_spec(ldv.skip(i + 1), name@)));
        }
        i += 1;
    }
    proof {
        assert(ldv.skip(ldv.len() as int) =~= Seq::<Seq<char>>::empty());
        assert(out.deep_view() + patch_template_spec(Seq::<Seq<char>>::empty(), name@)
            =~= out.deep_view());
    }
    out
}

/// An occurrence in a suffix of `s` is an occurrence in `s`, shifted.
proof fn lemma_matches_at_shift(s: Seq<char>, pat: Seq<char>, k: int, j: int)
    requires
        0 <= k <= s.len(),
        0 <= j,
    ensures
        matches_at(s.skip(k), pat, j) <==> matches_at(s, pat, k + j),
{
    if j + pat.len() <= s.len() - k {
        assert(s.skip(k).subrange(j, j + pat.len()) =~= s.subrange(k + j, k + j + pat.len()));
    }
}

/// Replacement in a text without any occurrence changes nothing.
proof fn lemma_replace_none(s: Seq<char>, pat: Seq<char>, repl: Seq<char>)
    requires
        pat.len() >= 1,
        forall|j: int| !matches_at(s, pat, j),
    ensures
        replace_all(s, pat, repl) == s,
        occ_count(s, pat) == 0,
    decreases s.len(),
{
    if s.len() < pat.len() {
    } else {
        assert(!matches_at(s, pat, 0));
        assert(s.subrange(0, pat.len() as int) != pat);
        assert(forall|j: int| 0 <= j ==> !matches_at(s.skip(1), pat, j)) by {
            assert forall|j: int| 0 <= j implies !matches_at(s.skip(1), pat, j) by {
                lemma_matches_at_shift(s, pat, 1, j);
            }
        }
        assert(forall|j: int| j < 0 ==> !matches_at(s.skip(1), pat, j));
        lemma_replace_none(s.skip(1), pat, repl);
        assert(seq![s[0]] + s.skip(1) =~= s);
    }
}

/// Replacing up to the first occurrence: the scan copies the prefix,
/// rewrites the occurrence, and goes on behind it.
proof fn lemma_replace_first(s: Seq<char>, pat: Seq<char>, repl: Seq<char>, i: int)
    requires
        pat.len() >= 1,
        matches_at(s, pat, i),
        forall|j: int| 0 <= j < i ==> !matches_at(s, pat, j),
    ensures
        replace_all(s, pat, repl) == s.take(i) + repl + replace_all(
            s.skip(i + pat.len()),
            pat,
            repl,
        ),
        occ_count(s, pat) == 1 + occ_count(s.skip(i + pat.len()), pat),
    decreases i,
{
    if i == 0 {
        assert(s.subrange(0, pat.len() as int) == pat);
        assert(s.take(0) =~= Seq::<char>::empty());
        assert(s.take(0) + repl =~= repl);
    } else {
        assert(!matches_at(s, pat, 0));
        assert(s.len() >= i + pat.len() >= pat.len());
        assert(s.subrange(0, pat.len() as int) != pat);
        assert(replace_all(s, pat, repl) == seq![s[0]] + replace_all(s.skip(1), pat, repl));
        assert(matches_at(s.skip(1), pat, i - 1)) by {
            lemma_matches_at_shift(s, pat, 1, i - 1);
        }
        assert(forall|j: int| 0 <= j < i - 1 ==> !matches_at(s.skip(1), pat, j)) by {
            assert forall|j: int| 0 <= j < i - 1 implies !matches_at(s.skip(1), pat, j) by {
                lemma_matches_at_shift(s, pat, 1, j);
            }
        }
        lemma_replace_first(s.skip(1), pat, repl, i - 1);
        assert(s.skip(1).skip(i - 1 + pat.len()) =~= s.skip(i + pat.len()));
        assert(seq![s[0]] + (s.skip(1).take(i - 1) + repl + replace_all(
            s.skip(i + pat.len()),
            pat,
            repl,
        )) =~= s.take(i) + repl + replace_all(s.skip(i + pat.len()), pat, repl));
    }
}

/// A text without a newline is a single line.
proof fn lemma_split_no_newline(s: Seq<char>)
    requires
        has_no_newline(s),
    ensures
        split_lines(s) == seq![s],
    decreases s.len(),
{
    if s.len() == 0 {
        assert(s =~= Seq::<char>::empty());
    } else {
        lemma_split_no_newline(s.skip(1));
        assert(split_lines(s) == seq![seq![s[0]] + s.skip(1)] + seq![s.skip(1)].skip(1));
        assert(seq![s[0]] + s.skip(1) =~= s);
        assert(seq![s.skip(1)].skip(1) =~= Seq::<Seq<char>>::empty());
        assert(seq![s] + Seq::<Seq<char>>::empty() =~= seq![s]);
    }
}

/// Splitting cuts at the first newline: the newline-free part before it
/// becomes one line, the rest splits on its own.
proof fn lemma_split_concat(a: Seq<char>, b: Seq<char>)
    requires
        has_no_newline(a),
    ensures
        split_lines(a + seq!['\n'] + b) == seq![a] + split_lines(b),
    decreases a.len(),
{
    let s = a + seq!['\n'] + b;
    if a.len() == 0 {
        assert(a =~= Seq::<char>::empty());
        assert(s[0] == '\n');
        assert(s.skip(1) =~= b);
        assert(split_lines(s) == seq![Seq::<char>::empty()] + split_lines(b));
        assert(seq![Seq::<char>::empty()] + split_lines(b) =~= seq![a] + split_lines(b));
    } else {
        assert(s[0] == a[0]);
        assert(a[0] != '\n');
        assert(s.skip(1) =~= a.skip(1) + seq!['\n'] + b);
        lemma_split_concat(a.skip(1), b);
        let rest = split_lines(a.skip(1) + seq!['\n'] + b);
        assert(rest[0] == a.skip(1));
        assert(split_lines(s) == seq![seq![s[0]] + a.skip(1)] + rest.skip(1));
        assert(seq![s[0]] + a.skip(1) =~= a);
        assert(rest.skip(1) =~= split_lines(b)) by {
            assert((seq![a.skip(1)] + split_lines(b)).skip(1) =~= split_lines(b));
        }
        assert(seq![a] + split_lines(b) =~= seq![a] + rest.skip(1));
    }
}

/// A split yields one line more than the text holds newlines.
pub proof fn lemma_split_lines_len(s: Seq<char>)
    ensures
        split_lines(s).len() == count_char(s, '\n') + 1,
    decreases s.len(),
{
    if s.len() == 0 {
    } else {
        lemma_split_lines_len(s.skip(1));
        if s[0] != '\n' {
            lemma_split_lines_nonempty(s.skip(1));
        }
    }
}

/// Every line of a split is newline-free.
proof fn lemma_split_parts_no_newline(s: Seq<char>, k: int)
    requires
        0 <= k < split_lines(s).len(),
    ensures
        has_no_newline(split_lines(s)[k]),
    decreases s.len(),
{
    if s.len() == 0 {
    } else if s[0] == '\n' {
        if k >= 1 {
            lemma_split_parts_no_newline(s.skip(1), k - 1);
        }
    } else {
        let rest = split_lines(s.skip(1));
        lemma_split_lines_nonempty(s.skip(1));
        if k == 0 {
            lemma_split_parts_no_newline(s.skip(1), 0);
            assert(split_lines(s)[0] == seq![s[0]] + rest[0]);
            assert(forall|x: int|
                0 <= x < (seq![s[0]] + rest[0]).len() ==> (seq![s[0]] + rest[0])[x] != '\n');
        } else {
            lemma_split_parts_no_newline(s.skip(1), k);
            assert(split_lines(s)[k] == rest.skip(1)[k - 1]);
        }
    }
}

/// How replacement changes the count of a character that the pattern does
/// not hold: each occurrence contributes the replacement's own count.
proof fn lemma_replace_count(s: Seq<char>, pat: Seq<char>, repl: Seq<char>, c: char)
    requires
        pat.len() >= 1,
        count_char(pat, c) == 0,
    ensures
        count_char(replace_all(s, pat, repl), c) == count_char(s, c) + occ_count(s, pat)
            * count_char(repl, c),
    decreases s.len(),
{
    if s.len() < pat.len() {
        assert(replace_all(s, pat, repl) == s);
        assert(occ_count(s, pat) == 0);
        assert(count_char(s, c) + 0 * count_char(repl, c) == count_char(s, c));
    } else if s.subrange(0, pat.len() as int) == pat {
        let tail = s.skip(pat.len() as int);
        lemma_replace_count(tail, pat, repl, c);
        lemma_count_char_add(repl, replace_all(tail, pat, repl), c);
        assert(s =~= s.subrange(0, pat.len() as int) + tail);
        lemma_count_char_add(s.subrange(0, pat.len() as int), tail, c);
        assert(count_char(s, c) == count_char(tail, c));
        let o = occ_count(tail, pat);
        let k = count_char(repl, c);
        assert(occ_count(s, pat) == 1 + o);
        assert(count_char(replace_all(s, pat, repl), c) == k + (count_char(tail, c) + o * k));
        assert((1 + o) * k == k + o * k) by (nonlinear_arith);
        assert(count_char(s, c) + (1 + o) * k == count_char(tail, c) + (k + o * k));
    } else {
        lemma_replace_count(s.skip(1), pat, repl, c);
        lemma_count_char_add(seq![s[0]], replace_all(s.skip(1), pat, repl), c);
        assert(count_char(seq![s[0]], c) == (if s[0] == c {
            1nat
        } else {
            0nat
        })) by {
            reveal_with_fuel(count_char, 3);
            assert(seq![s[0]].skip(1) =~= Seq::<char>::empty());
        }
        assert(replace_all(s, pat, repl) == seq![s[0]] + replace_all(s.skip(1), pat, repl));
        assert(occ_count(s, pat) == occ_count(s.skip(1), pat));
        assert(count_char(s, c) == count_char(seq![s[0]], c) + count_char(s.skip(1), c));
    }
}

/// Law: a line holding the marker exactly once expands to exactly two
/// lines: first the line with the marker's place taken by the new
/// application's entry, then the marker itself again, indented, with the
/// rest of the original line — so the marker stays present verbatim and
/// the application entry stands immediately before it.
pub proof fn lemma_marker_line_expansion(line: Seq<char>, name: Seq<char>, i: int)
    requires
        matches_at(line, marker(), i),
        forall|j: int| j != i ==> !matches_at(line, marker(), j),
        has_no_newline(line),
    ensures
        patch_line_spec(line, name) == seq![
            line.take(i) + app_line(),
            seq!['\t'] + marker() + line.skip(i + marker().len()),
        ],
{
    lemma_pattern_shapes();
    assert(contains_pattern(line, marker()));
    assert(forall|j: int| 0 <= j < i ==> !matches_at(line, marker(), j));
    lemma_replace_first(line, marker(), app_insertion(), i);
    let tail = line.skip(i + marker().len());
    assert forall|j: int| !matches_at(tail, marker(), j) by {
        if j >= 0 {
            lemma_matches_at_shift(line, marker(), i + marker().len(), j);
            assert(i + marker().len() + j != i);
        }
    }
    lemma_replace_none(tail, marker(), app_insertion());
    let r = replace_all(line, marker(), app_insertion());
    let a = line.take(i) + app_line();
    let b = seq!['\t'] + marker() + tail;
    assert(has_no_newline(a)) by {
        assert forall|x: int| 0 <= x < a.len() implies a[x] != '\n' by {
            if x < i {
                assert(a[x] == line[x]);
            } else {
                assert(a[x] == app_line()[x - i]);
            }
        }
    }
    assert(has_no_newline(b)) by {
        assert forall|x: int| 0 <= x < b.len() implies b[x] != '\n' by {
            if x == 0 {
                assert(b[0] == '\t');
            } else if x < 1 + marker().len() {
                assert(b[x] == marker()[x - 1]);
            } else {
                assert(b[x] == line[i + marker().len() + (x - 1 - marker().len())]);
            }
        }
    }
    assert(r =~= a + seq!['\n'] + b);
    lemma_split_concat(a, b);
    lemma_split_no_newline(b);
    assert(split_lines(r) == seq![a] + seq![b]);
    assert(seq![a] + seq![b] =~= seq![a, b]);
}

/// Law: a line without the marker but with the placeholder becomes exactly
/// one line: the left-to-right replacement of every placeholder occurrence
/// by the project name.
pub proof fn lemma_placeholder_line(line: Seq<char>, name: Seq<char>)
    requires
        !contains_pattern(line, marker()),
        contains_pattern(line, placeholder()),
    ensures
        patch_line_spec(line, name) == seq![replace_all(line, placeholder(), name)],
{
}

/// Law: a line with neither the marker nor the placeholder passes through
/// as exactly itself.
pub proof fn lemma_plain_line_unchanged(line: Seq<char>, name: Seq<char>)
    requires
        !contains_pattern(line, marker()),
        !contains_pattern(line, placeholder()),
    ensures
        patch_line_spec(line, name) == seq![line],
{
}

/// Law: patching one line yields one line, plus one extra line for each
/// marker occurrence the line holds.
pub proof fn lemma_patch_line_count(line: Seq<char>, name: Seq<char>)
    requires
        has_no_newline(line),
    ensures
        patch_line_spec(line, name).len() == 1 + (if contains_pattern(line, marker()) {
            occ_count(line, marker())
        } else {
            0nat
        }),
{
    lemma_pattern_shapes();
    if contains_pattern(line, marker()) {
        let r = replace_all(line, marker(), app_insertion());
        lemma_replace_count(line, marker(), app_insertion(), '\n');
        lemma_count_char_zero(line, '\n');
        let o = occ_count(line, marker());
        assert(o * 1 == o) by (nonlinear_arith);
        assert(count_char(r, '\n') == o);
        lemma_split_lines_len(r);
    }
}

/// The marker occurrences summed over a whole template.
pub open spec fn total_marker_occurrences(lines: Seq<Seq<char>>) -> nat
    decreases lines.len(),
{
    if lines.len() == 0 {
        0
    } else {
        (if contains_pattern(lines[0], marker()) {
            occ_count(lines[0], marker())
        } else {
            0nat
        }) + total_marker_occurrences(lines.skip(1))
    }
}

/// Law: the patched template holds exactly the input's line count plus one
/// inserted line per marker occurrence.
pub proof fn lemma_patch_template_count(lines: Seq<Seq<char>>, name: Seq<char>)
    requires
        forall|k: int| 0 <= k < lines.len() ==> has_no_newline(#[trigger] lines[k]),
    ensures
        patch_template_spec(lines, name).len() == lines.len() + total_marker_occurrences(lines),
    decreases lines.len(),
{
    if lines.len() == 0 {
    } else {
        lemma_patch_line_count(lines[0], name);
        assert(forall|k: int|
            0 <= k < lines.skip(1).len() ==> has_no_newline(#[trigger] lines.skip(1)[k])) by {
            assert(forall|k: int| 0 <= k < lines.skip(1).len() ==> lines.skip(1)[k] == lines[k
                + 1]);
        }
        lemma_patch_template_count(lines.skip(1), name);
    }
}

/// Law: when the project name holds no newline, every line the patcher
/// emits is itself newline-free, so the emitted sequence really is the
/// line-by-line content of the written file.
pub proof fn lemma_patch_line_no_newline(line: Seq<char>, name: Seq<char>, k: int)
    requires
        has_no_newline(line),
        has_no_newline(name),
        0 <= k < patch_line_spec(line, name).len(),
    ensures
        has_no_newline(patch_line_spec(line, name)[k]),
{
    lemma_pattern_shapes();
    if contains_pattern(line, marker()) {
        lemma_split_parts_no_newline(replace_all(line, marker(), app_insertion()), k);
    } else if contains_pattern(line, placeholder()) {
        let r = replace_all(line, placeholder(), name);
        lemma_replace_count(line, placeholder(), name, '\n');
        lemma_count_char_zero(line, '\n');
        lemma_count_char_zero(name, '\n');
        let o = occ_count(line, placeholder());
        assert(o * 0 == 0) by (nonlinear_arith);
        assert(count_char(r, '\n') == 0);
        lemma_count_char_zero(r, '\n');
        assert(patch_line_spec(line, name)[0] == r);
    } else {
        assert(patch_line_spec(line, name)[0] == line);
    }
}

} // verus!
