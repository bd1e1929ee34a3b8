//! Character-level text helpers: the parts of `str` handling that the
//! parsers and generators need, each with a specification over `Seq<char>`.

use vstd::prelude::*;

verus! {

/// Appends one character to a string (`String::push`).
#[verifier::external_body]
pub(crate) fn push_char(s: &mut String, c: char)
    ensures
        final(s)@ == old(s)@.push(c),
{
    s.push(c);
}

/// The characters of a string slice, in order.
pub fn chars_of(s: &str) -> (v: Vec<char>)
    ensures
        v@ == s@,
{
    let mut v: Vec<char> = Vec::new();
    for c in it: s.chars()
        invariant
            v@ == it.seq().take(it.index() as int),
    {
        v.push(c);
    }
    v
}

/// A string holding exactly the given characters.
pub fn string_of(v: &Vec<char>) -> (s: String)
    ensures
        s@ == v@,
{
    let mut s = String::new();
    let mut i: usize = 0;
    while i < v.len()
        invariant
            i <= v.len(),
            s@ == v@.take(i as int),
        decreases v.len() - i,
    {
        push_char(&mut s, v[i]);
        proof {
            assert(v@.take(i as int + 1) =~= v@.take(i as int).push(v@[i as int]));
        }
        i += 1;
    }
    proof {
        assert(v@.take(v.len() as int) =~= v@);
    }
    s
}

/// Appends all characters of `v` to `s`.
pub fn push_chars(s: &mut String, v: &Vec<char>)
    ensures
        final(s)@ == old(s)@ + v@,
{
    let mut i: usize = 0;
    while i < v.len()
        invariant
            i <= v.len(),
            s@ == old(s)@ + v@.take(i as int),
        decreases v.len() - i,
    {
        push_char(s, v[i]);
        proof {
            assert(v@.take(i as int + 1) =~= v@.take(i as int).push(v@[i as int]));
        }
        i += 1;
    }
    proof {
        assert(v@.take(v.len() as int) =~= v@);
    }
}

/// Appends a string slice to `s`.
pub fn push_str(s: &mut String, t: &str)
    ensures
        final(s)@ == old(s)@ + t@,
{
    let v = chars_of(t);
    push_chars(s, &v);
}

/// Unicode `White_Space`, the set that `char::is_whitespace` tests.
pub open spec fn is_white(c: char) -> bool {
    let u = c as u32;
    ||| 0x09 <= u <= 0x0d
    ||| u == 0x20
    ||| u == 0x85
    ||| u == 0xa0
    ||| u == 0x1680
    ||| 0x2000 <= u <= 0x200a
    ||| u == 0x2028
    ||| u == 0x2029
    ||| u == 0x202f
    ||| u == 0x205f
    ||| u == 0x3000
}

/// `s` without its leading whitespace.
pub open spec fn trim_start(s: Seq<char>) -> Seq<char>
    decreases s.len(),
{
    if s.len() > 0 && is_white(s[0]) {
        trim_start(s.drop_first())
    } else {
        s
    }
}

/// `s` without its trailing whitespace.
pub open spec fn trim_end(s: Seq<char>) -> Seq<char>
    decreases s.len(),
{
    if s.len() > 0 && is_white(s.last()) {
        trim_end(s.drop_last())
    } else {
        s
    }
}

/// `s` without leading and trailing whitespace (`str::trim`).
pub open spec fn trim(s: Seq<char>) -> Seq<char> {
    trim_end(trim_start(s))
}

/// A relative file name appended to a directory: a `/` goes between them
/// unless the directory is empty or already ends with one.
pub open spec fn joined_path(dir: Seq<char>, file: Seq<char>) -> Seq<char> {
    if dir.len() == 0 || dir.last() == '/' {
        dir + file
    } else {
        dir + "/"@ + file
    }
}

/// `file` appended to the directory `dir` as a path (see `joined_path`).
pub fn join_path(dir: &Vec<char>, file: &str) -> (r: String)
    ensures
        r@ == joined_path(dir@, file@),
{
    let mut s = string_of(dir);
    if dir.len() > 0 && dir[dir.len() - 1] != '/' {
        push_str(&mut s, "/");
    }
    push_str(&mut s, file);
    proof {
        reveal_strlit("/");
    }
    s
}

/// `s` begins with `p`.
pub open spec fn starts_with(s: Seq<char>, p: Seq<char>) -> bool {
    p.len() <= s.len() && s.take(p.len() as int) == p
}

/// `n` occurs in `h` as a contiguous piece.
pub open spec fn has_sub(h: Seq<char>, n: Seq<char>) -> bool {
    exists|i: int| 0 <= i && i + n.len() <= h.len() && #[trigger] h.subrange(i, i + n.len()) == n
}

/// `s` with every leading copy of the non-empty `p` removed
/// (`str::trim_start_matches` with a string pattern).
pub open spec fn strip_prefixes(s: Seq<char>, p: Seq<char>) -> Seq<char>
    decreases s.len(),
{
    if p.len() > 0 && starts_with(s, p) {
        strip_prefixes(s.skip(p.len() as int), p)
    } else {
        s
    }
}

/// The pieces of `s` between the occurrences of `c` (`str::split` with a
/// `char`): always at least one piece.
pub open spec fn split_on(s: Seq<char>, c: char) -> Seq<Seq<char>>
    decreases s.len(),
{
    if s.len() == 0 {
        seq![Seq::<char>::empty()]
    } else {
        let p = split_on(s.drop_last(), c);
        if s.last() == c {
            p.push(Seq::<char>::empty())
        } else {
            p.update(p.len() - 1, p.last().push(s.last()))
        }
    }
}

/// A line without its carriage return, as `str::lines` gives it.
pub open spec fn strip_cr(l: Seq<char>) -> Seq<char> {
    if l.len() > 0 && l.last() == '\r' {
        l.drop_last()
    } else {
        l
    }
}

/// The lines of `s` (`str::lines`): split at `'\n'`, no final empty line
/// after a trailing `'\n'`, a `'\r'` just before a `'\n'` dropped with it;
/// a last line without `'\n'` keeps a final `'\r'`.
pub open spec fn lines_of(s: Seq<char>) -> Seq<Seq<char>> {
    if s.len() == 0 {
        Seq::empty()
    } else if s.last() == '\n' {
        split_on(s.drop_last(), '\n').map_values(|l: Seq<char>| strip_cr(l))
    } else {
        let p = split_on(s, '\n');
        p.drop_last().map_values(|l: Seq<char>| strip_cr(l)).push(p.last())
    }
}

/// The run of non-whitespace characters that starts `s`.
pub open spec fn take_word(s: Seq<char>) -> Seq<char>
    decreases s.len(),
{
    if s.len() > 0 && !is_white(s[0]) {
        seq![s[0]] + take_word(s.drop_first())
    } else {
        Seq::empty()
    }
}

/// The whitespace-separated words of `s` (`str::split_whitespace`).
pub open spec fn words(s: Seq<char>) -> Seq<Seq<char>>
    decreases s.len(),
{
    let t = trim_start(s);
    if t.len() == 0 {
        Seq::empty()
    } else {
        proof {
            lemma_trim_start_len(s);
            lemma_take_word_len(t);
        }
        seq![take_word(t)] + words(t.skip(take_word(t).len() as int))
    }
}

pub proof fn lemma_trim_start_len(s: Seq<char>)
    ensures
        trim_start(s).len() <= s.len(),
        trim_start(s).len() == 0 || !is_white(trim_start(s)[0]),
        trim_start(s) =~= s.skip(s.len() - trim_start(s).len()),
    decreases s.len(),
{
    if s.len() > 0 && is_white(s[0]) {
        lemma_trim_start_len(s.drop_first());
        assert(s.drop_first().skip(s.drop_first().len() - trim_start(s).len()) =~= s.skip(s.len() - trim_start(s).len()));
    }
}

pub proof fn lemma_take_word_len(t: Seq<char>)
    ensures
        take_word(t).len() <= t.len(),
        t.len() > 0 && !is_white(t[0]) ==> take_word(t).len() > 0,
        take_word(t) =~= t.take(take_word(t).len() as int),
        forall|i: int| 0 <= i < take_word(t).len() ==> !is_white(#[trigger] t[i]),
        take_word(t).len() < t.len() ==> is_white(t[take_word(t).len() as int]),
    decreases t.len(),
{
    if t.len() > 0 && !is_white(t[0]) {
        lemma_take_word_len(t.drop_first());
        assert forall|i: int| 0 <= i < take_word(t).len() implies !is_white(#[trigger] t[i]) by {
            if i > 0 {
                assert(t[i] == t.drop_first()[i - 1]);
            }
        }
    }
}


/// Whether `c` is Unicode whitespace.
pub fn is_white_char(c: char) -> (r: bool)
    ensures
        r == is_white(c),
{
    let u = c as u32;
    (0x09 <= u && u <= 0x0d) || u == 0x20 || u == 0x85 || u == 0xa0 || u == 0x1680
        || (0x2000 <= u && u <= 0x200a) || u == 0x2028 || u == 0x2029 || u == 0x202f
        || u == 0x205f || u == 0x3000
}

/// The characters `v[from..to]`.
pub fn slice_chars(v: &Vec<char>, from: usize, to: usize) -> (r: Vec<char>)
    requires
        from <= to <= v.len(),
    ensures
        r@ == v@.subrange(from as int, to as int),
{
    let mut r: Vec<char> = Vec::new();
    let mut i = from;
    while i < to
        invariant
            from <= i <= to <= v.len(),
            r@ == v@.subrange(from as int, i as int),
        decreases to - i,
    {
        r.push(v[i]);
        proof {
            assert(v@.subrange(from as int, i as int + 1) =~= v@.subrange(from as int, i as int).push(v@[i as int]));
        }
        i += 1;
    }
    r
}

/// Whether two character vectors are equal.
pub fn chars_eq(a: &Vec<char>, b: &Vec<char>) -> (r: bool)
    ensures
        r == (a@ == b@),
{
    if a.len() != b.len() {
        return false;
    }
    let mut i: usize = 0;
    while i < a.len()
        invariant
            a.len() == b.len(),
            i <= a.len(),
            forall|k: int| 0 <= k < i ==> a@[k] == b@[k],
        decreases a.len() - i,
    {
        if a[i] != b[i] {
            return false;
        }
        i += 1;
    }
    proof {
        assert(a@ =~= b@);
    }
    true
}

/// Whether the characters of `v` spell the string slice `t`.
pub fn chars_eq_str(v: &Vec<char>, t: &str) -> (r: bool)
    ensures
        r == (v@ == t@),
{
    let w = chars_of(t);
    chars_eq(v, &w)
}

/// `s` without leading and trailing whitespace.
pub fn trim_chars(v: &Vec<char>) -> (r: Vec<char>)
    ensures
        r@ == trim(v@),
{
    let mut i: usize = 0;
    proof {
        assert(v@.skip(0) =~= v@);
    }
    while i < v.len() && is_white_char(v[i])
        invariant
            i <= v.len(),
            trim_start(v@) == trim_start(v@.skip(i as int)),
        decreases v.len() - i,
    {
        proof {
            assert(v@.skip(i as int).drop_first() =~= v@.skip(i as int + 1));
        }
        i += 1;
    }
    let mut j: usize = v.len();
    proof {
        assert(v@.skip(i as int).take(j - i) =~= v@.skip(i as int));
    }
    while j > i && is_white_char(v[j - 1])
        invariant
            i <= j <= v.len(),
            trim_start(v@) == v@.skip(i as int),
            trim(v@) == trim_end(v@.subrange(i as int, j as int)),
        decreases j,
    {
        proof {
            assert(v@.subrange(i as int, j as int).drop_last() =~= v@.subrange(i as int, j - 1));
        }
        j -= 1;
    }
    slice_chars(v, i, j)
}

/// `s` without its trailing whitespace.
pub fn trim_end_chars(v: &Vec<char>) -> (r: Vec<char>)
    ensures
        r@ == trim_end(v@),
{
    let mut j: usize = v.len();
    proof {
        assert(v@.take(j as int) =~= v@);
    }
    while j > 0 && is_white_char(v[j - 1])
        invariant
            j <= v.len(),
            trim_end(v@) == trim_end(v@.take(j as int)),
        decreases j,
    {
        proof {
            assert(v@.take(j as int).drop_last() =~= v@.take(j - 1));
        }
        j -= 1;
    }
    slice_chars(v, 0, j)
}

/// Whether `v` begins with `p`.
pub fn starts_with_chars(v: &Vec<char>, p: &Vec<char>) -> (r: bool)
    ensures
        r == starts_with(v@, p@),
{
    if p.len() > v.len() {
        return false;
    }
    let mut i: usize = 0;
    while i < p.len()
        invariant
            p.len() <= v.len(),
            i <= p.len(),
            forall|k: int| 0 <= k < i ==> v@[k] == p@[k],
        decreases p.len() - i,
    {
        if v[i] != p[i] {
            proof {
                assert(v@.take(p.len() as int)[i as int] != p@[i as int]);
            }
            return false;
        }
        i += 1;
    }
    proof {
        assert(v@.take(p.len() as int) =~= p@);
    }
    true
}

/// Whether `v` begins with the string slice `p`.
pub fn starts_with_str(v: &Vec<char>, p: &str) -> (r: bool)
    ensures
        r == starts_with(v@, p@),
{
    let w = chars_of(p);
    starts_with_chars(v, &w)
}

/// Whether `n` occurs in `h` at position `i`.
fn occurs_at(h: &Vec<char>, n: &Vec<char>, i: usize) -> (r: bool)
    requires
        i + n.len() <= h.len(),
    ensures
        r == (h@.subrange(i as int, i + n.len()) == n@),
{
    let mut k: usize = 0;
    while k < n.len()
        invariant
            i + n.len() <= h.len(),
            k <= n.len(),
            forall|m: int| 0 <= m < k ==> h@[i + m] == n@[m],
        decreases n.len() - k,
    {
        if h[i + k] != n[k] {
            proof {
                assert(h@.subrange(i as int, i + n.len())[k as int] != n@[k as int]);
            }
            return false;
        }
        k += 1;
    }
    proof {
        assert(h@.subrange(i as int, i + n.len()) =~= n@);
    }
    true
}

/// Whether `n` occurs in `h`.
pub fn contains_chars(h: &Vec<char>, n: &Vec<char>) -> (r: bool)
    ensures
        r == has_sub(h@, n@),
{
    if n.len() > h.len() {
        return false;
    }
    if n.len() == 0 {
        proof {
            assert(h@.subrange(0, 0 + n@.len() as int) =~= n@);
        }
        return true;
    }
    let mut i: usize = 0;
    while i <= h.len() - n.len()
        invariant
            0 < n.len() <= h.len(),
            i <= h.len() - n.len() + 1,
            forall|k: int| 0 <= k < i ==> #[trigger] h@.subrange(k, k + n.len()) != n@,
        decreases h.len() - n.len() + 1 - i,
    {
        if occurs_at(h, n, i) {
            return true;
        }
        i += 1;
    }
    proof {
        assert forall|k: int| 0 <= k && k + n.len() <= h.len() implies #[trigger] h@.subrange(k, k + n.len()) != n@ by {
            assert(k < i);
        }
    }
    false
}

/// Whether the string slice `n` occurs in `h`.
pub fn contains_str(h: &Vec<char>, n: &str) -> (r: bool)
    ensures
        r == has_sub(h@, n@),
{
    let w = chars_of(n);
    contains_chars(h, &w)
}

/// `v` with every leading copy of `p` removed.
pub fn strip_prefixes_chars(v: &Vec<char>, p: &Vec<char>) -> (r: Vec<char>)
    ensures
        r@ == strip_prefixes(v@, p@),
{
    if p.len() == 0 {
        return slice_chars(v, 0, v.len());
    }
    let mut cur = slice_chars(v, 0, v.len());
    proof {
        assert(cur@ =~= v@);
    }
    while starts_with_chars(&cur, p)
        invariant
            p@.len() > 0,
            strip_prefixes(v@, p@) == strip_prefixes(cur@, p@),
        decreases cur@.len(),
    {
        cur = slice_chars(&cur, p.len(), cur.len());
    }
    cur
}

pub open spec fn views(vs: Seq<Vec<char>>) -> Seq<Seq<char>> {
    vs.map_values(|v: Vec<char>| v@)
}

pub proof fn lemma_split_nonempty(s: Seq<char>, c: char)
    ensures
        split_on(s, c).len() >= 1,
    decreases s.len(),
{
    if s.len() > 0 {
        lemma_split_nonempty(s.drop_last(), c);
    }
}

/// The pieces of `v` between the occurrences of `c`.
pub fn split_chars(v: &Vec<char>, c: char) -> (r: Vec<Vec<char>>)
    ensures
        views(r@) == split_on(v@, c),
{
    let mut parts: Vec<Vec<char>> = Vec::new();
    let mut cur: Vec<char> = Vec::new();
    let mut i: usize = 0;
    proof {
        assert(v@.take(0) =~= Seq::<char>::empty());
        assert(views(parts@).push(cur@) =~= seq![Seq::<char>::empty()]);
    }
    while i < v.len()
        invariant
            i <= v.len(),
            split_on(v@.take(i as int), c) == views(parts@).push(cur@),
        decreases v.len() - i,
    {
        let ghost prev = v@.take(i as int);
        proof {
            assert(v@.take(i as int + 1).drop_last() =~= prev);
        }
        if v[i] == c {
            parts.push(cur);
            cur = Vec::new();
            proof {
                assert(views(parts@).push(cur@) =~= split_on(prev, c).push(Seq::<char>::empty()));
            }
        } else {
            let ghost old_parts = views(parts@);
            cur.push(v[i]);
            proof {
                let p = split_on(prev, c);
                assert(p =~= old_parts.push(p.last()));
                assert(views(parts@).push(cur@) =~= p.update(p.len() - 1, p.last().push(v@[i as int])));
            }
        }
        i += 1;
    }
    parts.push(cur);
    proof {
        assert(v@.take(v.len() as int) =~= v@);
    }
    parts
}

/// Each piece with a trailing `'\r'` dropped.
fn strip_cr_chars(l: &Vec<char>) -> (r: Vec<char>)
    ensures
        r@ == strip_cr(l@),
{
    if l.len() > 0 && l[l.len() - 1] == '\r' {
        slice_chars(l, 0, l.len() - 1)
    } else {
        slice_chars(l, 0, l.len())
    }
}

/// The lines of `v`, as `str::lines` gives them.
pub fn lines_chars(v: &Vec<char>) -> (r: Vec<Vec<char>>)
    ensures
        views(r@) == lines_of(v@),
{
    if v.len() == 0 {
        let r: Vec<Vec<char>> = Vec::new();
        proof {
            assert(views(r@) =~= Seq::<Seq<char>>::empty());
        }
        return r;
    }
    let body = if v[v.len() - 1] == '\n' {
        slice_chars(v, 0, v.len() - 1)
    } else {
        slice_chars(v, 0, v.len())
    };
    proof {
        if v@.last() == '\n' {
            assert(body@ =~= v@.drop_last());
        } else {
            assert(body@ =~= v@);
        }
    }
    let ends_nl = v[v.len() - 1] == '\n';
    let parts = split_chars(&body, '\n');
    let ghost sp = split_on(body@, '\n');
    let ghost target = lines_of(v@);
    proof {
        lemma_split_nonempty(body@, '\n');
        assert(target.len() == sp.len());
        assert forall|k: int| 0 <= k < sp.len() implies #[trigger] target[k] == if ends_nl || k + 1 < sp.len() {
            strip_cr(sp[k])
        } else {
            sp[k]
        } by {
            if !ends_nl && k + 1 < sp.len() {
                assert(target[k] == sp.drop_last().map_values(|l: Seq<char>| strip_cr(l))[k]);
            }
        }
    }
    let mut r: Vec<Vec<char>> = Vec::new();
    let mut i: usize = 0;
    while i < parts.len()
        invariant
            i <= parts.len(),
            views(parts@) == sp,
            sp.len() == target.len(),
            forall|k: int| 0 <= k < sp.len() ==> #[trigger] target[k] == if ends_nl || k + 1 < sp.len() {
                strip_cr(sp[k])
            } else {
                sp[k]
            },
            views(r@) == target.take(i as int),
        decreases parts.len() - i,
    {
        let l = if ends_nl || i + 1 < parts.len() {
            strip_cr_chars(&parts[i])
        } else {
            slice_chars(&parts[i], 0, parts[i].len())
        };
        let ghost old_r = r@;
        let ghost lv = l@;
        r.push(l);
        proof {
            assert(views(parts@)[i as int] == parts@[i as int]@);
            assert(lv == target[i as int]);
            assert(views(r@) =~= views(old_r).push(lv));
            assert(target.take(i as int + 1) =~= target.take(i as int).push(target[i as int]));
        }
        i += 1;
    }
    proof {
        assert(target.take(parts.len() as int) =~= target);
    }
    r
}

/// The whitespace-separated words of `v`.
pub fn words_chars(v: &Vec<char>) -> (r: Vec<Vec<char>>)
    ensures
        views(r@) == words(v@),
{
    let mut r: Vec<Vec<char>> = Vec::new();
    let mut i: usize = 0;
    proof {
        assert(v@.skip(0) =~= v@);
        assert(views(r@) + words(v@.skip(0)) =~= words(v@));
    }
    while i < v.len()
        invariant
            i <= v.len(),
            views(r@) + words(v@.skip(i as int)) == words(v@),
        decreases v.len() - i,
    {
        let ghost rest = v@.skip(i as int);
        if is_white_char(v[i]) {
            proof {
                assert(rest.drop_first() =~= v@.skip(i as int + 1));
                assert(trim_start(rest) == trim_start(rest.drop_first()));
                assert(words(rest) == words(rest.drop_first()));
            }
            i += 1;
        } else {
            let start = i;
            while i < v.len() && !is_white_char(v[i])
                invariant
                    start <= i <= v.len(),
                    forall|k: int| start <= k < i ==> !is_white(v@[k]),
                decreases v.len() - i,
            {
                i += 1;
            }
            let w = slice_chars(v, start, i);
            proof {
                assert(trim_start(rest) == rest);
                lemma_take_word_len(rest);
                let tw = take_word(rest);
                if tw.len() < i - start {
                    assert(is_white(rest[tw.len() as int]));
                    assert(rest[tw.len() as int] == v@[start + tw.len()]);
                }
                if tw.len() > i - start {
                    assert(!is_white(rest[(i - start) as int]));
                    assert(rest[(i - start) as int] == v@[i as int]);
                }
                assert(tw =~= w@);
                assert(rest.skip(tw.len() as int) =~= v@.skip(i as int));
                assert(words(rest) == seq![w@] + words(v@.skip(i as int)));
            }
            r.push(w);
            proof {
                assert(views(r@) =~= views(r@.drop_last()).push(w@));
                assert(views(r@) + words(v@.skip(i as int)) =~= views(r@.drop_last()) + (seq![w@] + words(v@.skip(i as int))));
            }
        }
    }
    proof {
        assert(v@.skip(v.len() as int) =~= Seq::<char>::empty());
        assert(words(Seq::<char>::empty()) =~= Seq::<Seq<char>>::empty());
        assert(views(r@) =~= views(r@) + words(v@.skip(i as int)));
    }
    r
}

/// A piece without the separator splits into itself.
pub proof fn lemma_split_no_sep(s: Seq<char>, c: char)
    requires
        forall|i: int| 0 <= i < s.len() ==> s[i] != c,
    ensures
        split_on(s, c) == seq![s],
    decreases s.len(),
{
    if s.len() > 0 {
        lemma_split_no_sep(s.drop_last(), c);
        assert(s.drop_last().push(s.last()) =~= s);
        assert(seq![s.drop_last()].update(0, s.drop_last().push(s.last())) =~= seq![s]);
    } else {
        assert(s =~= Seq::<char>::empty());
    }
}

/// Splitting `a`, the separator, then `b` gives the pieces of `a` followed
/// by the pieces of `b`.
pub proof fn lemma_split_join(a: Seq<char>, b: Seq<char>, c: char)
    ensures
        split_on(a.push(c) + b, c) == split_on(a, c) + split_on(b, c),
    decreases b.len(),
{
    let s = a.push(c) + b;
    lemma_split_nonempty(a, c);
    if b.len() == 0 {
        assert(s =~= a.push(c));
        assert(s.drop_last() =~= a);
        assert(split_on(b, c) =~= seq![Seq::<char>::empty()]);
        assert(split_on(a, c).push(Seq::<char>::empty()) =~= split_on(a, c) + split_on(b, c));
    } else {
        lemma_split_join(a, b.drop_last(), c);
        lemma_split_nonempty(b.drop_last(), c);
        assert(s.drop_last() =~= a.push(c) + b.drop_last());
        assert(s.last() == b.last());
        let pa = split_on(a, c);
        let pb = split_on(b.drop_last(), c);
        if b.last() == c {
            assert((pa + pb).push(Seq::<char>::empty()) =~= pa + pb.push(Seq::<char>::empty()));
        } else {
            assert((pa + pb).update((pa + pb).len() - 1, (pa + pb).last().push(b.last())) =~= pa + pb.update(pb.len() - 1, pb.last().push(b.last())));
        }
    }
}

} // verus!
