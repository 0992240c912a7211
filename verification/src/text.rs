use vstd::prelude::*;

verus! {

broadcast use vstd::string::group_string_axioms;

/// Appending one character to a `String` (std's `String::push`) adds it at the end.
pub assume_specification[ String::push ](s: &mut String, ch: char)
    ensures
        final(s)@ == old(s)@.push(ch),
;

/// The characters of `s`, in order.
pub fn chars_of(s: &str) -> (v: Vec<char>)
    ensures
        v@ == s@,
{
    let mut v: Vec<char> = Vec::new();
    for c in it: s.chars()
        invariant
            v@ == it.seq().take(it.index() as int),
            it.seq() == s@,
    {
        v.push(c);
    }
    v
}

/// A `String` holding exactly the characters `v[from..to]`.
pub fn string_of_range(v: &Vec<char>, from: usize, to: usize) -> (s: String)
    requires
        from <= to <= v.len(),
    ensures
        s@ == v@.subrange(from as int, to as int),
{
    let mut s = String::new();
    let mut i = from;
    while i < to
        invariant
            from <= i <= to <= v.len(),
            s@ == v@.subrange(from as int, i as int),
        decreases to - i,
    {
        s.push(v[i]);
        assert(v@.subrange(from as int, i + 1) == v@.subrange(from as int, i as int).push(v@[i as int]));
        i = i + 1;
    }
    s
}


/// Unicode `White_Space`: the characters for which std's `char::is_whitespace` holds.
pub open spec fn is_ws(c: char) -> bool {
    let n = c as u32;
    ||| 0x09 <= n <= 0x0D
    ||| n == 0x20
    ||| n == 0x85
    ||| n == 0xA0
    ||| n == 0x1680
    ||| 0x2000 <= n <= 0x200A
    ||| n == 0x2028
    ||| n == 0x2029
    ||| n == 0x202F
    ||| n == 0x205F
    ||| n == 0x3000
}

/// Whether `c` is whitespace in the sense of `is_ws`.
pub fn is_whitespace(c: char) -> (b: bool)
    ensures
        b == is_ws(c),
{
    let n = c as u32;
    (0x09 <= n && n <= 0x0D) || n == 0x20 || n == 0x85 || n == 0xA0 || n == 0x1680 || (0x2000
        <= n && n <= 0x200A) || n == 0x2028 || n == 0x2029 || n == 0x202F || n == 0x205F || n
        == 0x3000
}

/// The character sequences held by a sequence of character vectors.
pub open spec fn views(s: Seq<Vec<char>>) -> Seq<Seq<char>> {
    s.map_values(|v: Vec<char>| v@)
}

/// The maximal runs of non-whitespace characters of `s`, in order
/// (what std's `str::split_whitespace` yields), defined by reading `s`
/// one character at a time from the left.
pub open spec fn tokens(s: Seq<char>) -> Seq<Seq<char>>
    decreases s.len(),
{
    if s.len() == 0 {
        seq![]
    } else {
        let prev = tokens(s.drop_last());
        let c = s.last();
        if is_ws(c) {
            prev
        } else if s.len() >= 2 && !is_ws(s[s.len() - 2]) {
            prev.update(prev.len() - 1, prev.last().push(c))
        } else {
            prev.push(seq![c])
        }
    }
}

/// A sequence that ends in a non-whitespace character has at least one token.
pub proof fn lemma_tokens_nonempty(s: Seq<char>)
    requires
        s.len() > 0,
        !is_ws(s.last()),
    ensures
        tokens(s).len() > 0,
    decreases s.len(),
{
    if s.len() >= 2 && !is_ws(s[s.len() - 2]) {
        lemma_tokens_nonempty(s.drop_last());
    }
}

/// Splits `v` into its whitespace-separated tokens.
pub fn split_ws(v: &Vec<char>) -> (out: Vec<Vec<char>>)
    ensures
        views(out@) == tokens(v@),
{
    let mut out: Vec<Vec<char>> = Vec::new();
    let mut cur: Vec<char> = Vec::new();
    let mut i: usize = 0;
    assert(v@.take(0) =~= seq![]);
    while i < v.len()
        invariant
            0 <= i <= v.len(),
            (cur@.len() > 0) == (i > 0 && !is_ws(v@[i - 1])),
            cur@.len() == 0 ==> views(out@) == tokens(v@.take(i as int)),
            cur@.len() > 0 ==> views(out@).push(cur@) == tokens(v@.take(i as int)),
        decreases v.len() - i,
    {
        let c = v[i];
        let ghost pre = v@.take(i as int);
        let ghost nxt = v@.take(i + 1);
        assert(nxt.drop_last() =~= pre);
        assert(nxt.last() == c);
        if is_whitespace(c) {
            if cur.len() > 0 {
                out.push(cur);
                cur = Vec::new();
                assert(views(out@) =~= tokens(pre));
            }
        } else {
            if cur.len() > 0 {
                proof {
                    assert(nxt[nxt.len() - 2] == v@[i - 1]);
                    let t = tokens(pre);
                    assert(t =~= views(out@).push(cur@));
                }
                cur.push(c);
                proof {
                    let t = tokens(pre);
                    assert(views(out@).push(cur@) =~= t.update(t.len() - 1, t.last().push(c)));
                }
            } else {
                cur.push(c);
                assert(cur@ =~= seq![c]);
                assert(views(out@).push(cur@) =~= tokens(pre).push(seq![c]));
            }
        }
        i = i + 1;
    }
    assert(v@.take(v.len() as int) =~= v@);
    if cur.len() > 0 {
        out.push(cur);
    }
    proof {
        assert(views(out@) =~= tokens(v@));
    }
    out
}


/// The pieces of `s` between newline characters, in order (what std's
/// `str::split("\n")` yields): there is always at least one piece, and a
/// trailing newline gives an empty last piece.
pub open spec fn lines(s: Seq<char>) -> Seq<Seq<char>>
    decreases s.len(),
{
    if s.len() == 0 {
        seq![seq![]]
    } else {
        let prev = lines(s.drop_last());
        if s.last() == '\n' {
            prev.push(seq![])
        } else {
            prev.update(prev.len() - 1, prev.last().push(s.last()))
        }
    }
}

/// The pieces joined back together, a newline between each two.
pub open spec fn join_lines(ls: Seq<Seq<char>>) -> Seq<char>
    decreases ls.len(),
{
    if ls.len() == 0 {
        seq![]
    } else if ls.len() == 1 {
        ls[0]
    } else {
        join_lines(ls.drop_last()) + seq!['\n'] + ls.last()
    }
}

/// `lines` always yields at least one piece.
pub proof fn lemma_lines_nonempty(s: Seq<char>)
    ensures
        lines(s).len() >= 1,
    decreases s.len(),
{
    if s.len() > 0 {
        lemma_lines_nonempty(s.drop_last());
    }
}

/// Splits `v` at its newline characters.
pub fn split_lines(v: &Vec<char>) -> (out: Vec<Vec<char>>)
    ensures
        views(out@) == lines(v@),
{
    let mut out: Vec<Vec<char>> = Vec::new();
    let mut cur: Vec<char> = Vec::new();
    let mut i: usize = 0;
    assert(v@.take(0) =~= seq![]);
    assert(views(out@).push(cur@) =~= lines(v@.take(0)));
    while i < v.len()
        invariant
            0 <= i <= v.len(),
            views(out@).push(cur@) == lines(v@.take(i as int)),
        decreases v.len() - i,
    {
        let c = v[i];
        let ghost pre = v@.take(i as int);
        let ghost nxt = v@.take(i + 1);
        assert(nxt.drop_last() =~= pre);
        assert(nxt.last() == c);
        if c == '\n' {
            out.push(cur);
            cur = Vec::new();
            assert(views(out@).push(cur@) =~= lines(pre).push(seq![]));
        } else {
            let ghost t = lines(pre);
            cur.push(c);
            assert(views(out@).push(cur@) =~= t.update(t.len() - 1, t.last().push(c)));
        }
        i = i + 1;
    }
    assert(v@.take(v.len() as int) =~= v@);
    out.push(cur);
    out
}

/// `s` without its trailing whitespace.
pub open spec fn trim_end(s: Seq<char>) -> Seq<char>
    decreases s.len(),
{
    if s.len() > 0 && is_ws(s.last()) {
        trim_end(s.drop_last())
    } else {
        s
    }
}

/// `s` without its leading whitespace.
pub open spec fn trim_start(s: Seq<char>) -> Seq<char>
    decreases s.len(),
{
    if s.len() > 0 && is_ws(s[0]) {
        trim_start(s.drop_first())
    } else {
        s
    }
}

/// `s` without leading and trailing whitespace (std's `str::trim`).
pub open spec fn trim(s: Seq<char>) -> Seq<char> {
    trim_start(trim_end(s))
}

/// The bounds `(a, b)` of the trimmed part of `v`: `v[a..b]` is `trim(v)`.
pub fn trim_range(v: &Vec<char>) -> (r: (usize, usize))
    ensures
        r.0 <= r.1 <= v.len(),
        v@.subrange(r.0 as int, r.1 as int) == trim(v@),
{
    let mut b: usize = v.len();
    assert(v@.subrange(0, b as int) =~= v@);
    while b > 0 && is_whitespace(v[b - 1])
        invariant
            b <= v.len(),
            trim_end(v@) == trim_end(v@.subrange(0, b as int)),
        decreases b,
    {
        assert(v@.subrange(0, b as int).drop_last() =~= v@.subrange(0, b - 1));
        b = b - 1;
    }
    let mut a: usize = 0;
    assert(v@.subrange(0, b as int) =~= v@.subrange(a as int, b as int));
    while a < b && is_whitespace(v[a])
        invariant
            a <= b <= v.len(),
            trim_end(v@) == v@.subrange(0, b as int),
            trim_start(v@.subrange(0, b as int)) == trim_start(v@.subrange(a as int, b as int)),
        decreases b - a,
    {
        assert(v@.subrange(a as int, b as int).drop_first() =~= v@.subrange(a + 1, b as int));
        a = a + 1;
    }
    (a, b)
}

/// `needle` occurs in `hay` starting at position `i`.
pub open spec fn occurs_at(hay: Seq<char>, needle: Seq<char>, i: int) -> bool {
    0 <= i && i + needle.len() <= hay.len() && hay.subrange(i, i + needle.len()) == needle
}

/// `needle` occurs somewhere in `hay` (std's `str::contains` with a string pattern).
pub open spec fn contains(hay: Seq<char>, needle: Seq<char>) -> bool {
    exists|i: int| #[trigger] occurs_at(hay, needle, i)
}

/// Whether `needle` occurs in `hay` starting at position `i`.
fn matches_at(hay: &Vec<char>, needle: &Vec<char>, i: usize) -> (b: bool)
    requires
        i + needle.len() <= hay.len(),
    ensures
        b == occurs_at(hay@, needle@, i as int),
{
    let mut j: usize = 0;
    while j < needle.len()
        invariant
            j <= needle.len(),
            i + needle.len() <= hay.len(),
            forall|k: int| 0 <= k < j ==> hay@[i + k] == needle@[k],
        decreases needle.len() - j,
    {
        if hay[i + j] != needle[j] {
            assert(hay@.subrange(i as int, i + needle.len())[j as int] != needle@[j as int]);
            return false;
        }
        j = j + 1;
    }
    assert(hay@.subrange(i as int, i + needle.len()) =~= needle@);
    true
}

/// Whether `needle` occurs somewhere in `hay`.
pub fn contains_seq(hay: &Vec<char>, needle: &Vec<char>) -> (b: bool)
    ensures
        b == contains(hay@, needle@),
{
    if needle.len() > hay.len() {
        return false;
    }
    let last = hay.len() - needle.len();
    let mut i: usize = 0;
    while i <= last
        invariant
            last == hay.len() - needle.len(),
            i <= last + 1,
            forall|k: int| 0 <= k < i ==> !occurs_at(hay@, needle@, k),
        decreases last + 1 - i,
    {
        if matches_at(hay, needle, i) {
            return true;
        }
        if i == last {
            return false;
        }
        i = i + 1;
    }
    false
}


/// The character sequences held by a sequence of strings.
pub open spec fn strs(s: Seq<String>) -> Seq<Seq<char>> {
    s.map_values(|t: String| t@)
}

/// Whether `a` and `b` hold the same characters.
pub fn same_chars(a: &Vec<char>, b: &Vec<char>) -> (r: bool)
    ensures
        r == (a@ == b@),
{
    if a.len() != b.len() {
        return false;
    }
    let mut i: usize = 0;
    while i < a.len()
        invariant
            a.len() == b.len(),
            i <= a.len(),
            forall|k: int| 0 <= k < i ==> a@[k] == b@[k],
        decreases a.len() - i,
    {
        if a[i] != b[i] {
            return false;
        }
        i = i + 1;
    }
    assert(a@ =~= b@);
    true
}

/// A new vector holding `v[from..to]`.
pub fn subvec(v: &Vec<char>, from: usize, to: usize) -> (r: Vec<char>)
    requires
        from <= to <= v.len(),
    ensures
        r@ == v@.subrange(from as int, to as int),
{
    let mut r: Vec<char> = Vec::new();
    let mut i = from;
    while i < to
        invariant
            from <= i <= to <= v.len(),
            r@ == v@.subrange(from as int, i as int),
        decreases to - i,
    {
        r.push(v[i]);
        assert(r@ =~= v@.subrange(from as int, i + 1));
        i = i + 1;
    }
    r
}

/// The part of `s` before its first '.', or all of `s` when it holds none
/// (the first piece that std's `str::split('.')` yields).
pub open spec fn before_dot(s: Seq<char>) -> Seq<char>
    decreases s.len(),
{
    if s.len() == 0 {
        s
    } else if s[0] == '.' {
        Seq::<char>::empty()
    } else {
        seq![s[0]] + before_dot(s.drop_first())
    }
}

/// When `k` is the position of the first '.' of `s` (or its length when it
/// holds none), the part before the first '.' is `s[..k]`.
pub proof fn lemma_before_dot(s: Seq<char>, k: int)
    requires
        0 <= k <= s.len(),
        forall|j: int| 0 <= j < k ==> s[j] != '.',
        k == s.len() || s[k] == '.',
    ensures
        before_dot(s) == s.take(k),
    decreases k,
{
    if k == 0 {
        assert(s.take(0) =~= Seq::<char>::empty());
    } else {
        let rest = s.drop_first();
        assert forall|j: int| 0 <= j < k - 1 implies rest[j] != '.' by {
            assert(rest[j] == s[j + 1]);
        }
        lemma_before_dot(rest, k - 1);
        assert(s.take(k) =~= seq![s[0]] + rest.take(k - 1));
    }
}

/// The length of the part of `v` before its first '.'.
pub fn before_dot_len(v: &Vec<char>) -> (k: usize)
    ensures
        k <= v.len(),
        v@.take(k as int) == before_dot(v@),
{
    let mut k: usize = 0;
    while k < v.len() && v[k] != '.'
        invariant
            k <= v.len(),
            forall|j: int| 0 <= j < k ==> v@[j] != '.',
        decreases v.len() - k,
    {
        k = k + 1;
    }
    proof {
        lemma_before_dot(v@, k as int);
    }
    k
}

} // verus!

verus! {

/// A field: a non-empty run of characters none of which is whitespace.
pub open spec fn is_field(w: Seq<char>) -> bool {
    w.len() > 0 && forall|i: int| 0 <= i < w.len() ==> !is_ws(#[trigger] w[i])
}

/// The fields `fs` written one after another, a single space between each two.
pub open spec fn join_fields(fs: Seq<Seq<char>>) -> Seq<char>
    decreases fs.len(),
{
    if fs.len() == 0 {
        seq![]
    } else if fs.len() == 1 {
        fs[0]
    } else {
        join_fields(fs.drop_last()) + seq![' '] + fs.last()
    }
}

/// A field on its own is its one token.
pub proof fn lemma_tokens_of_field(w: Seq<char>)
    requires
        is_field(w),
    ensures
        tokens(w) == seq![w],
    decreases w.len(),
{
    let p = w.drop_last();
    assert(!is_ws(w[w.len() - 1]));
    if p.len() == 0 {
        assert(p =~= Seq::<char>::empty());
        assert(tokens(p) =~= Seq::<Seq<char>>::empty());
        assert(seq![w.last()] =~= w);
        assert(tokens(w) =~= seq![w]);
    } else {
        assert(is_field(p)) by {
            assert forall|i: int| 0 <= i < p.len() implies !is_ws(#[trigger] p[i]) by {
                assert(p[i] == w[i]);
            }
        }
        lemma_tokens_of_field(p);
        assert(!is_ws(w[w.len() - 2]));
        assert(p.push(w.last()) =~= w);
        assert(tokens(w) =~= seq![w]);
    }
}

/// Appending a space and a field to `s` adds that field as one more token.
pub proof fn lemma_tokens_append_field(s: Seq<char>, w: Seq<char>)
    requires
        is_field(w),
    ensures
        tokens(s + seq![' '] + w) == tokens(s).push(w),
    decreases w.len(),
{
    let u = s + seq![' '];
    assert(u.drop_last() =~= s);
    assert(is_ws(' '));
    assert(tokens(u) == tokens(s));
    let x = s + seq![' '] + w;
    assert(!is_ws(w[w.len() - 1]));
    if w.len() == 1 {
        assert(x.drop_last() =~= u);
        assert(x.last() == w[0]);
        assert(x[x.len() - 2] == ' ');
        assert(seq![w[0]] =~= w);
        assert(tokens(x) =~= tokens(s).push(w));
    } else {
        let p = w.drop_last();
        assert(is_field(p)) by {
            assert forall|i: int| 0 <= i < p.len() implies !is_ws(#[trigger] p[i]) by {
                assert(p[i] == w[i]);
            }
        }
        lemma_tokens_append_field(s, p);
        assert(x.drop_last() =~= s + seq![' '] + p);
        assert(x[x.len() - 2] == w[w.len() - 2]);
        assert(!is_ws(w[w.len() - 2]));
        assert(x.last() == w.last());
        assert(p.push(w.last()) =~= w);
        assert(tokens(x) =~= tokens(s).push(w));
    }
}

/// Fields joined by single spaces split back into exactly those fields.
pub proof fn lemma_tokens_of_join(fs: Seq<Seq<char>>)
    requires
        forall|i: int| 0 <= i < fs.len() ==> is_field(#[trigger] fs[i]),
    ensures
        tokens(join_fields(fs)) == fs,
    decreases fs.len(),
{
    if fs.len() == 0 {
        assert(tokens(join_fields(fs)) =~= fs);
    } else if fs.len() == 1 {
        lemma_tokens_of_field(fs[0]);
        assert(tokens(join_fields(fs)) =~= fs);
    } else {
        let p = fs.drop_last();
        assert forall|i: int| 0 <= i < p.len() implies is_field(#[trigger] p[i]) by {
            assert(p[i] == fs[i]);
        }
        lemma_tokens_of_join(p);
        assert(is_field(fs[fs.len() - 1]));
        lemma_tokens_append_field(join_fields(p), fs.last());
        assert(p.push(fs.last()) =~= fs);
    }
}

/// Trimming a field leaves it as it is.
pub proof fn lemma_trim_field(w: Seq<char>)
    requires
        is_field(w),
    ensures
        trim(w) == w,
{
    assert(!is_ws(w[w.len() - 1]));
    assert(!is_ws(w[0]));
    assert(trim_end(w) == w);
}

/// The part before the first '.' of `a` followed by '.' and anything is `a`
/// when `a` holds no '.'; a text without '.' is its own part before '.'.
pub proof fn lemma_before_dot_of(a: Seq<char>, b: Seq<char>)
    requires
        !a.contains('.'),
    ensures
        before_dot(a + seq!['.'] + b) == a,
        before_dot(a) == a,
{
    let s = a + seq!['.'] + b;
    assert forall|j: int| 0 <= j < a.len() implies s[j] != '.' by {
        assert(s[j] == a[j]);
        if a[j] == '.' {
            assert(a.contains('.'));
        }
    }
    assert(s[a.len() as int] == '.');
    lemma_before_dot(s, a.len() as int);
    assert(s.take(a.len() as int) =~= a);
    assert forall|j: int| 0 <= j < a.len() implies a[j] != '.' by {
        if a[j] == '.' {
            assert(a.contains('.'));
        }
    }
    lemma_before_dot(a, a.len() as int);
    assert(a.take(a.len() as int) =~= a);
}

} // verus!
