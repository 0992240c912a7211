use vstd::prelude::*;

use crate::number::{
    dec_digits, decimal_i32, hex_value, lemma_dec_digits, lemma_hex_round_trip,
};
use crate::text::{
    before_dot, contains, is_field, is_ws, join_fields, join_lines, lemma_before_dot_of,
    lemma_tokens_of_join, lemma_trim_field, lines, tokens, trim, trim_end, trim_start,
};
use crate::utils::{
    child_word, find_first, first_field, hex_window_id, id_match, lowercase, name_match, tree_lines,
    tree_match,
};
use crate::{add_win_storage, cache_lookup, fetch_cache, fetch_result, toggle_target};

verus! {

/// `find_first` gives a line of `ls` that satisfies `p` with no earlier line
/// satisfying it, or nothing when no line satisfies `p`.
pub proof fn lemma_find_first(ls: Seq<Seq<char>>, p: spec_fn(Seq<char>) -> bool)
    ensures
        match find_first(ls, p) {
            Some(l) => exists|k: int|
                0 <= k < ls.len() && ls[k] == l && p(l) && forall|j: int| 0 <= j < k ==> !p(#[trigger] ls[j]),
            None => forall|k: int| 0 <= k < ls.len() ==> !p(#[trigger] ls[k]),
        },
    decreases ls.len(),
{
    if ls.len() > 0 {
        if p(ls[0]) {
            assert(ls[0] == ls[0]);
        } else {
            let rest = ls.drop_first();
            lemma_find_first(rest, p);
            match find_first(rest, p) {
                Some(l) => {
                    let k = choose|k: int|
                        0 <= k < rest.len() && rest[k] == l && p(l) && forall|j: int|
                            0 <= j < k ==> !p(#[trigger] rest[j]);
                    assert(ls[k + 1] == l);
                    assert forall|j: int| 0 <= j < k + 1 implies !p(#[trigger] ls[j]) by {
                        if j > 0 {
                            assert(ls[j] == rest[j - 1]);
                        }
                    }
                },
                None => {
                    assert forall|k: int| 0 <= k < ls.len() implies !p(#[trigger] ls[k]) by {
                        if k > 0 {
                            assert(ls[k] == rest[k - 1]);
                        }
                    }
                },
            }
        }
    }
}

/// A lookup that gives an id leaves the cache giving that id under the same
/// hash: what a lookup returns, the next cache read returns.
pub proof fn lemma_fetch_then_cached(
    cache: Map<u64, Seq<char>>,
    h: u64,
    found: Option<Seq<char>>,
)
    ensures
        fetch_result(cache, h, found) is Some ==> cache_lookup(fetch_cache(cache, h, found), h)
            == fetch_result(cache, h, found),
{
}

/// Once a lookup under a hash has given an id, every later lookup under it
/// gives the same id, whatever the window tree gives then, and leaves the
/// cache as it is.
pub proof fn lemma_fetch_stable(
    cache: Map<u64, Seq<char>>,
    h: u64,
    found: Option<Seq<char>>,
    later: Option<Seq<char>>,
)
    requires
        fetch_result(cache, h, found) is Some,
    ensures
        fetch_result(fetch_cache(cache, h, found), h, later) == fetch_result(cache, h, found),
        fetch_cache(fetch_cache(cache, h, found), h, later) == fetch_cache(cache, h, found),
{
}

/// A lookup that finds nothing leaves the cache as it was.
pub proof fn lemma_fetch_not_found(
    cache: Map<u64, Seq<char>>,
    h: u64,
    found: Option<Seq<char>>,
)
    requires
        fetch_result(cache, h, found) is None,
    ensures
        fetch_cache(cache, h, found) == cache,
{
}

/// A lookup changes no cache entry but the one under the looked-up hash.
pub proof fn lemma_fetch_keeps_others(
    cache: Map<u64, Seq<char>>,
    h: u64,
    found: Option<Seq<char>>,
    k: u64,
)
    requires
        k != h,
    ensures
        fetch_cache(cache, h, found).contains_key(k) == cache.contains_key(k),
        cache.contains_key(k) ==> fetch_cache(cache, h, found)[k] == cache[k],
{
}

/// Recording a window never forgets a recorded window nor changes its line.
pub proof fn lemma_add_win_keeps(
    storage: Map<Seq<char>, Seq<char>>,
    wm: Seq<Seq<char>>,
    id: Seq<char>,
    k: Seq<char>,
)
    requires
        storage.contains_key(k),
    ensures
        add_win_storage(storage, wm, id).contains_key(k),
        add_win_storage(storage, wm, id)[k] == storage[k],
{
}

/// After recording `id`, it is recorded exactly when it was before or the
/// window list has a line for it; a newly recorded line is a line of the list
/// whose first field is `id`, and no other window is added.
pub proof fn lemma_add_win_records(
    storage: Map<Seq<char>, Seq<char>>,
    wm: Seq<Seq<char>>,
    id: Seq<char>,
)
    ensures
        add_win_storage(storage, wm, id).contains_key(id) == (storage.contains_key(id) || exists|k: int|
            0 <= k < wm.len() && id_match(#[trigger] wm[k], id)),
        !storage.contains_key(id) && add_win_storage(storage, wm, id).contains_key(id) ==> id_match(
            add_win_storage(storage, wm, id)[id],
            id,
        ) && wm.contains(add_win_storage(storage, wm, id)[id]),
        add_win_storage(storage, wm, id).dom() =~= storage.dom() || add_win_storage(
            storage,
            wm,
            id,
        ).dom() =~= storage.dom().insert(id),
{
    let p = |l: Seq<char>| id_match(l, id);
    lemma_find_first(wm, p);
    match find_first(wm, p) {
        Some(l) => {
            let k = choose|k: int|
                0 <= k < wm.len() && wm[k] == l && p(l) && forall|j: int| 0 <= j < k ==> !p(#[trigger] wm[j]);
            assert(id_match(wm[k], id));
            assert(wm.contains(wm[k]));
        },
        None => {
            assert forall|k: int| 0 <= k < wm.len() implies !id_match(#[trigger] wm[k], id) by {
                assert(!p(wm[k]));
            }
        },
    }
}

/// Recording a window adds at most one entry, and only under its own id
/// (for the finite maps that a hash map holds).
pub proof fn lemma_add_win_grows_by_at_most_one(
    storage: Map<Seq<char>, Seq<char>>,
    wm: Seq<Seq<char>>,
    id: Seq<char>,
)
    requires
        storage.dom().finite(),
    ensures
        add_win_storage(storage, wm, id).dom().finite(),
        add_win_storage(storage, wm, id).dom().len() <= storage.dom().len() + 1,
        forall|k: Seq<char>|
            #[trigger] add_win_storage(storage, wm, id).contains_key(k) && !storage.contains_key(k)
                ==> k == id,
{
    let new = add_win_storage(storage, wm, id);
    if new.dom() =~= storage.dom().insert(id) {
        if storage.dom().contains(id) {
            assert(storage.dom().insert(id) =~= storage.dom());
        }
    } else {
        assert(new.dom() =~= storage.dom());
    }
}

/// Recording the same window twice against the same list is recording it once.
pub proof fn lemma_add_win_idempotent(
    storage: Map<Seq<char>, Seq<char>>,
    wm: Seq<Seq<char>>,
    id: Seq<char>,
)
    ensures
        add_win_storage(add_win_storage(storage, wm, id), wm, id) == add_win_storage(storage, wm, id),
{
}

/// Toggling from a window `w` into the application's window `a` and toggling
/// again from there comes back to the first window seen, which is `w` itself
/// when nothing was seen before.
pub proof fn lemma_toggle_round_trip(stack: Seq<Seq<char>>, w: Seq<char>, a: Seq<char>)
    requires
        w != a,
    ensures
        toggle_target(stack, w, a) == a,
        toggle_target(stack.push(w), a, a) == stack.push(w)[0],
        stack.len() == 0 ==> toggle_target(stack.push(w), a, a) == w,
        stack.len() > 0 ==> toggle_target(stack.push(w), a, a) == stack[0],
{
}

/// Toggling keeps every window seen before in its place: the first window
/// seen stays first.
pub proof fn lemma_toggle_keeps_first(stack: Seq<Seq<char>>, active: Seq<char>, appid: Seq<char>)
    requires
        stack.len() > 0,
    ensures
        stack.push(active).take(stack.len() as int) == stack,
        stack.push(active)[0] == stack[0],
        active == appid ==> toggle_target(stack, active, appid) == stack[0],
{
    assert(stack.push(active).take(stack.len() as int) =~= stack);
}

/// Joining the lines of `s` with newlines gives `s` back, and no line holds a
/// newline.
pub proof fn lemma_lines_join(s: Seq<char>)
    ensures
        join_lines(lines(s)) == s,
        forall|i: int| 0 <= i < lines(s).len() ==> !(#[trigger] lines(s)[i]).contains('\n'),
    decreases s.len(),
{
    if s.len() > 0 {
        let prev = lines(s.drop_last());
        lemma_lines_join(s.drop_last());
        crate::text::lemma_lines_nonempty(s.drop_last());
        let c = s.last();
        if c == '\n' {
            assert(lines(s) == prev.push(seq![]));
            assert(lines(s).drop_last() =~= prev);
            assert(join_lines(lines(s)) =~= s);
            assert forall|i: int| 0 <= i < lines(s).len() implies !(#[trigger] lines(s)[i]).contains('\n') by {
                if i < prev.len() {
                    assert(lines(s)[i] == prev[i]);
                } else {
                    assert(lines(s)[i] =~= Seq::<char>::empty());
                }
            }
        } else {
            let last = prev.last().push(c);
            assert(lines(s) == prev.update(prev.len() - 1, last));
            assert(s =~= s.drop_last().push(c));
            if prev.len() == 1 {
                assert(join_lines(prev) == prev[0]);
                assert(lines(s).len() == 1);
                assert(join_lines(lines(s)) == lines(s)[0]);
                assert(join_lines(lines(s)) =~= s);
            } else {
                assert(lines(s).drop_last() =~= prev.drop_last());
                assert(join_lines(prev) == join_lines(prev.drop_last()) + seq!['\n'] + prev.last());
                assert(join_lines(lines(s)) == join_lines(lines(s).drop_last()) + seq!['\n'] + lines(s).last());
                assert(join_lines(lines(s)) =~= s);
            }
            assert forall|i: int| 0 <= i < lines(s).len() implies !(#[trigger] lines(s)[i]).contains('\n') by {
                if i < prev.len() - 1 {
                    assert(lines(s)[i] == prev[i]);
                } else {
                    assert(!prev[i].contains('\n'));
                    if lines(s)[i].contains('\n') {
                        let j = choose|j: int| 0 <= j < lines(s)[i].len() && lines(s)[i][j] == '\n';
                        if j < prev[i].len() {
                            assert(prev[i][j] == '\n');
                        }
                    }
                }
            }
        }
    }
}

/// Every token of `s` is a non-empty run of characters none of which is
/// whitespace.
pub proof fn lemma_tokens_clean(s: Seq<char>)
    ensures
        forall|i: int|
            0 <= i < tokens(s).len() ==> (#[trigger] tokens(s)[i]).len() > 0 && forall|j: int|
                0 <= j < tokens(s)[i].len() ==> !is_ws(#[trigger] tokens(s)[i][j]),
    decreases s.len(),
{
    if s.len() > 0 {
        let prev = tokens(s.drop_last());
        lemma_tokens_clean(s.drop_last());
        let c = s.last();
        if is_ws(c) {
        } else if s.len() >= 2 && !is_ws(s[s.len() - 2]) {
            crate::text::lemma_tokens_nonempty(s.drop_last());
            let t = tokens(s);
            assert forall|i: int| 0 <= i < t.len() implies (#[trigger] t[i]).len() > 0 && forall|j: int|
                0 <= j < t[i].len() ==> !is_ws(#[trigger] t[i][j]) by {
                if i < prev.len() - 1 {
                    assert(t[i] == prev[i]);
                } else {
                    assert(t[i] == prev[i].push(c));
                    assert forall|j: int| 0 <= j < t[i].len() implies !is_ws(#[trigger] t[i][j]) by {
                        if j < prev[i].len() {
                            assert(t[i][j] == prev[i][j]);
                        }
                    }
                }
            }
        } else {
            let t = tokens(s);
            assert forall|i: int| 0 <= i < t.len() implies (#[trigger] t[i]).len() > 0 && forall|j: int|
                0 <= j < t[i].len() ==> !is_ws(#[trigger] t[i][j]) by {
                if i < prev.len() {
                    assert(t[i] == prev[i]);
                } else {
                    assert(t[i] == seq![c]);
                }
            }
        }
    }
}


/// The window id made of the number `n` starts with "0x" and its digits read
/// back as `n` taken as a 32-bit pattern.
pub proof fn lemma_window_id(n: i32)
    ensures
        hex_window_id(n).take(2) == seq!['0', 'x'],
        hex_value(hex_window_id(n).skip(2)) == n as u32,
{
    let id = hex_window_id(n);
    lemma_hex_round_trip(n as u32 as nat);
    assert(id.take(2) =~= seq!['0', 'x']);
    assert(id.skip(2) =~= crate::number::hex_digits(n as u32 as nat));
}

/// No window line of an `xwininfo -root -tree` output holds the word
/// "child", and there are no more of them than lines after the header.
pub proof fn lemma_tree_lines(output: Seq<char>)
    ensures
        forall|i: int| 0 <= i < tree_lines(output).len() ==> !contains(#[trigger] tree_lines(output)[i], child_word()),
        tree_lines(output).len() + 6 <= lines(output).len() || tree_lines(output).len() == 0,
{
    broadcast use vstd::seq_lib::group_filter_ensures;
    let trimmed = lines(output).map_values(|l: Seq<char>| crate::text::trim(l));
    let kept = if trimmed.len() <= 6 {
        Seq::<Seq<char>>::empty()
    } else {
        trimmed.skip(6)
    };
    let pred = |l: Seq<char>| !contains(l, child_word());
    assert(tree_lines(output) == kept.filter(pred));
    kept.lemma_filter_len(pred);
    assert forall|i: int| 0 <= i < tree_lines(output).len() implies !contains(#[trigger] tree_lines(output)[i], child_word()) by {
        kept.lemma_filter_pred(pred, i);
    }
}


/// A window line of the tree, made of fields: it is taken for `needle`
/// exactly when its third field from the end (the class), lower-cased,
/// contains `needle` lower-cased, whatever the fields before the class are
/// (the instance among them), and the id found for it is its first field.
pub proof fn lemma_tree_match_reads_class(fs: Seq<Seq<char>>, needle: Seq<char>)
    requires
        fs.len() >= 3,
        forall|i: int| 0 <= i < fs.len() ==> is_field(#[trigger] fs[i]),
    ensures
        tree_match(join_fields(fs), needle) == contains(lowercase(fs[fs.len() - 3]), lowercase(needle)),
        first_field(find_first(seq![join_fields(fs)], |l: Seq<char>| tree_match(l, needle))) == (if contains(
            lowercase(fs[fs.len() - 3]),
            lowercase(needle),
        ) {
            Some(fs[0])
        } else {
            None
        }),
{
    lemma_tokens_of_join(fs);
    lemma_trim_field(fs[fs.len() - 3]);
    let ls = seq![join_fields(fs)];
    let p = |l: Seq<char>| tree_match(l, needle);
    assert(ls[0] == join_fields(fs));
    assert(p(ls[0]) == tree_match(join_fields(fs), needle));
    assert(ls.drop_first() =~= Seq::<Seq<char>>::empty());
    assert(find_first(ls.drop_first(), p) == None::<Seq<char>>);
    if p(ls[0]) {
        assert(find_first(ls, p) == Some(ls[0]));
        assert(tokens(ls[0])[0] == fs[0]);
    } else {
        assert(find_first(ls, p) == find_first(ls.drop_first(), p));
    }
}

/// Completeness and soundness of the window lines: every line after the
/// six-line header whose trimmed text does not contain "child" is kept,
/// trimmed; every kept line is such a trimmed line and does not contain
/// "child".
pub proof fn lemma_tree_lines_complete(output: Seq<char>)
    ensures
        forall|i: int|
            6 <= i < lines(output).len() && !contains(trim(#[trigger] lines(output)[i]), "child"@)
                ==> tree_lines(output).contains(trim(lines(output)[i])),
        forall|j: int|
            0 <= j < tree_lines(output).len() ==> !contains(#[trigger] tree_lines(output)[j], "child"@)
                && exists|i: int| 6 <= i < lines(output).len() && tree_lines(output)[j] == trim(lines(output)[i]),
{
    broadcast use vstd::seq_lib::group_filter_ensures;
    reveal_strlit("child");
    assert("child"@ =~= child_word());
    let trimmed = lines(output).map_values(|l: Seq<char>| trim(l));
    let kept = if trimmed.len() <= 6 {
        Seq::<Seq<char>>::empty()
    } else {
        trimmed.skip(6)
    };
    let pred = |l: Seq<char>| !contains(l, child_word());
    assert(tree_lines(output) == kept.filter(pred));
    assert forall|i: int|
        6 <= i < lines(output).len() && !contains(trim(#[trigger] lines(output)[i]), "child"@) implies tree_lines(
        output,
    ).contains(trim(lines(output)[i])) by {
        assert(kept[i - 6] == trim(lines(output)[i]));
        kept.lemma_filter_contains(pred, i - 6);
    }
    assert forall|j: int| 0 <= j < tree_lines(output).len() implies !contains(
        #[trigger] tree_lines(output)[j],
        "child"@,
    ) && exists|i: int| 6 <= i < lines(output).len() && tree_lines(output)[j] == trim(lines(output)[i]) by {
        kept.lemma_filter_pred(pred, j);
        let x = tree_lines(output)[j];
        assert(tree_lines(output).contains(x));
        kept.lemma_filter_contains_rev(pred, x);
        let k = choose|k: int| 0 <= k < kept.len() && kept[k] == x;
        assert(x == trim(lines(output)[k + 6]));
    }
}

/// Reading back the decimal writing of any `i32` gives it: digits alone for
/// a number not below zero, '-' and the digits of its magnitude below zero;
/// surrounding whitespace, such as the newline that ends a command's
/// output, is trimmed away first.
pub proof fn lemma_decimal_round_trip(n: int)
    requires
        i32::MIN <= n <= i32::MAX,
    ensures
        0 <= n ==> decimal_i32(dec_digits(n as nat)) == Some(n as i32),
        n < 0 ==> decimal_i32(seq!['-'] + dec_digits((-n) as nat)) == Some(n as i32),
        0 <= n ==> decimal_i32(trim(dec_digits(n as nat).push('\n'))) == Some(n as i32),
{
    if 0 <= n {
        let s = dec_digits(n as nat);
        lemma_dec_digits(n as nat);
        assert(crate::number::is_digit(s[0]));
        assert(is_field(s)) by {
            assert forall|i: int| 0 <= i < s.len() implies !is_ws(#[trigger] s[i]) by {
                assert(crate::number::is_digit(s[i]));
            }
        }
        let t = s.push('\n');
        assert(t.drop_last() =~= s);
        assert(is_ws('\n'));
        assert(trim_end(t) == trim_end(s));
        lemma_trim_field(s);
        assert(trim_end(s) == s);
    } else {
        let d = dec_digits((-n) as nat);
        lemma_dec_digits((-n) as nat);
        let s = seq!['-'] + d;
        assert(s.drop_first() =~= d);
        assert(crate::number::is_digit(d[0]));
    }
}

/// The application match of a `wmctrl -lx` line made of fields depends on
/// its third field (WM_CLASS) alone: it holds exactly when that field,
/// before its first '.', is the name, whatever the other fields (the
/// desktop among them) are.
pub proof fn lemma_name_match_reads_class(fs: Seq<Seq<char>>, name: Seq<char>)
    requires
        fs.len() >= 3,
        forall|i: int| 0 <= i < fs.len() ==> is_field(#[trigger] fs[i]),
    ensures
        name_match(join_fields(fs), name) == (before_dot(fs[2]) == name),
        !name.contains('.') ==> (forall|rest: Seq<char>|
            #![trigger (name + seq!['.'] + rest)]
            fs[2] == name + seq!['.'] + rest ==> name_match(join_fields(fs), name)),
        !name.contains('.') && fs[2] == name ==> name_match(join_fields(fs), name),
{
    lemma_tokens_of_join(fs);
    if !name.contains('.') {
        assert forall|rest: Seq<char>|
            #![trigger (name + seq!['.'] + rest)]
            fs[2] == name + seq!['.'] + rest implies name_match(join_fields(fs), name) by {
            lemma_before_dot_of(name, rest);
        }
        lemma_before_dot_of(name, Seq::<char>::empty());
    }
}

/// The id match of a `wmctrl -lx` line made of fields holds exactly when
/// its first field is the id, whatever its other fields are; recording that
/// id against a list made of that one line records the line.
pub proof fn lemma_id_match_reads_first(
    fs: Seq<Seq<char>>,
    id: Seq<char>,
    storage: Map<Seq<char>, Seq<char>>,
)
    requires
        fs.len() >= 1,
        forall|i: int| 0 <= i < fs.len() ==> is_field(#[trigger] fs[i]),
    ensures
        id_match(join_fields(fs), id) == (fs[0] == id),
        !storage.contains_key(fs[0]) ==> add_win_storage(storage, seq![join_fields(fs)], fs[0])
            == storage.insert(fs[0], join_fields(fs)),
{
    lemma_tokens_of_join(fs);
    let ls = seq![join_fields(fs)];
    assert(ls.drop_first() =~= Seq::<Seq<char>>::empty());
}


/// Trimming removes exactly the whitespace around a text that starts and
/// ends with a character that is not whitespace.
pub proof fn lemma_trim_strips(a: Seq<char>, w: Seq<char>, b: Seq<char>)
    requires
        forall|i: int| 0 <= i < a.len() ==> is_ws(#[trigger] a[i]),
        forall|i: int| 0 <= i < b.len() ==> is_ws(#[trigger] b[i]),
        w.len() > 0,
        !is_ws(w[0]),
        !is_ws(w[w.len() - 1]),
    ensures
        trim(a + w + b) == w,
    decreases a.len() + b.len(),
{
    if b.len() > 0 {
        let b2 = b.drop_last();
        assert((a + w + b).drop_last() =~= a + w + b2);
        assert((a + w + b).last() == b.last());
        assert(is_ws(b[b.len() - 1]));
        assert forall|i: int| 0 <= i < b2.len() implies is_ws(#[trigger] b2[i]) by {
            assert(b2[i] == b[i]);
        }
        lemma_trim_strips(a, w, b2);
        assert(trim_end(a + w + b) == trim_end(a + w + b2));
    } else if a.len() > 0 {
        assert(a + w + b =~= a + w);
        let a2 = a.drop_first();
        assert((a + w).last() == w.last());
        assert(trim_end(a + w) == a + w);
        assert(trim_end(a2 + w + b) == a2 + w) by {
            assert(a2 + w + b =~= a2 + w);
            assert((a2 + w).len() > 0 && (a2 + w).last() == w.last());
        }
        assert forall|i: int| 0 <= i < a2.len() implies is_ws(#[trigger] a2[i]) by {
            assert(a2[i] == a[i + 1]);
        }
        lemma_trim_strips(a2, w, b);
        assert((a + w)[0] == a[0]);
        assert(is_ws(a[0]));
        assert((a + w).drop_first() =~= a2 + w);
        assert(trim_start(a + w) == trim_start(a2 + w));
    } else {
        assert(a + w + b =~= w);
        assert(trim_end(w) == w);
    }
}

/// A text contains whatever stands in it, and nothing longer than itself.
pub proof fn lemma_contains_infix(a: Seq<char>, n: Seq<char>, b: Seq<char>, h: Seq<char>)
    ensures
        contains(a + n + b, n),
        contains(h, n) ==> n.len() <= h.len(),
{
    let s = a + n + b;
    assert(s.subrange(a.len() as int, (a.len() + n.len()) as int) =~= n);
    assert(crate::text::occurs_at(s, n, a.len() as int));
}

/// A text is read as no `i32` when it is empty or holds a character that is
/// neither an ASCII digit nor a sign.
pub proof fn lemma_decimal_rejects(s: Seq<char>, i: int)
    requires
        s.len() == 0 || (0 <= i < s.len() && !crate::number::is_digit(s[i]) && s[i] != '-' && s[i]
            != '+'),
    ensures
        decimal_i32(s) is None,
{
    if s.len() > 0 {
        let signed = s[0] == '-' || s[0] == '+';
        if signed {
            assert(i > 0);
            assert(s.drop_first()[i - 1] == s[i]);
        } else {
            assert(s[i] == s[i]);
        }
    }
}

} // verus!
