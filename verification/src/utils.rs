use vstd::prelude::*;

use crate::number::{decimal_i32, hex_digits, parse_i32, push_hex};
use crate::text::{before_dot, before_dot_len, chars_of, contains, contains_seq, subvec, trim, trim_range, same_chars, split_lines, split_ws, string_of_range, strs, tokens, views, lines};

verus! {

/// The first entry of `ls` that satisfies `p`, if any
/// (what `iter().filter(p).next()` gives).
pub open spec fn find_first(ls: Seq<Seq<char>>, p: spec_fn(Seq<char>) -> bool) -> Option<Seq<char>>
    decreases ls.len(),
{
    if ls.len() == 0 {
        None
    } else if p(ls[0]) {
        Some(ls[0])
    } else {
        find_first(ls.drop_first(), p)
    }
}

/// The view of an optional string slice.
pub open spec fn opt_view(r: Option<&str>) -> Option<Seq<char>> {
    match r {
        Some(s) => Some(s@),
        None => None,
    }
}

/// The view of an optional string.
pub open spec fn opt_string_view(r: Option<String>) -> Option<Seq<char>> {
    match r {
        Some(s) => Some(s@),
        None => None,
    }
}

/// A line of `wmctrl -lx` belongs to the window `id` when its first
/// whitespace-separated field is `id`.
pub open spec fn id_match(line: Seq<char>, id: Seq<char>) -> bool {
    let t = tokens(line);
    t.len() > 0 && t[0] == id
}

/// A line of `wmctrl -lx` belongs to the application `appname` when it has a
/// third whitespace-separated field (the WM_CLASS column, "instance.Class")
/// whose part before its first '.' is `appname`.
pub open spec fn name_match(line: Seq<char>, appname: Seq<char>) -> bool {
    let t = tokens(line);
    t.len() >= 3 && before_dot(t[2]) == appname
}

/// The window list as `wmctrl -lx` printed it, one entry per line.
pub struct ProcessWmList {
    wmlist: Vec<String>,
}

impl View for ProcessWmList {
    type V = Seq<Seq<char>>;

    closed spec fn view(&self) -> Seq<Seq<char>> {
        strs(self.wmlist@)
    }
}

impl ProcessWmList {
    /// The list read from the output of `wmctrl -lx`: the output cut at
    /// each newline, the last (possibly empty) piece included.
    pub fn fetch(output: &str) -> (r: Self)
        ensures
            r@ == lines(output@),
    {
        let chars = chars_of(output);
        let pieces = split_lines(&chars);
        let mut wmlist: Vec<String> = Vec::new();
        let mut i: usize = 0;
        while i < pieces.len()
            invariant
                i <= pieces.len(),
                views(pieces@) == lines(output@),
                strs(wmlist@) == views(pieces@).take(i as int),
            decreases pieces.len() - i,
        {
            let line = string_of_range(&pieces[i], 0, pieces[i].len());
            assert(pieces[i as int]@.subrange(0, pieces[i as int]@.len() as int) =~= pieces[i as int]@);
            assert(line@ == views(pieces@)[i as int]);
            let ghost before = strs(wmlist@);
            wmlist.push(line);
            assert(strs(wmlist@) =~= before.push(views(pieces@)[i as int]));
            assert(views(pieces@).take(i + 1) =~= views(pieces@).take(i as int).push(
                views(pieces@)[i as int],
            ));
            i = i + 1;
        }
        assert(views(pieces@).take(pieces.len() as int) =~= views(pieces@));
        ProcessWmList { wmlist }
    }

    /// The first line for which `finder` holds.
    fn base_find<F: Fn(&str) -> bool>(&self, finder: F, Ghost(pred): Ghost<spec_fn(Seq<char>) -> bool>) -> (r: Option<&str>)
        requires
            forall|s: &str| #[trigger] finder.requires((s,)),
            forall|s: &str, b: bool| finder.ensures((s,), b) ==> b == pred(s@),
        ensures
            opt_view(r) == find_first(self@, pred),
    {
        let mut i: usize = 0;
        assert(self@.skip(0) =~= self@);
        while i < self.wmlist.len()
            invariant
                i <= self.wmlist.len(),
                forall|s: &str| #[trigger] finder.requires((s,)),
                forall|s: &str, b: bool| finder.ensures((s,), b) ==> b == pred(s@),
                find_first(self@, pred) == find_first(self@.skip(i as int), pred),
            decreases self.wmlist.len() - i,
        {
            let line = self.wmlist[i].as_str();
            assert(self@.skip(i as int)[0] == line@);
            if finder(line) {
                return Some(line);
            }
            assert(self@.skip(i as int).drop_first() =~= self@.skip(i + 1));
            i = i + 1;
        }
        assert(self@.skip(i as int).len() == 0);
        None
    }

    /// The first line of the application `appname`: the first whose WM_CLASS
    /// column, before its first '.', is `appname` (see `name_match`).
    pub fn find_with_name(&self, appname: &str) -> (r: Option<&str>)
        ensures
            opt_view(r) == find_first(self@, |l: Seq<char>| name_match(l, appname@)),
    {
        let name = chars_of(appname);
        let finder = |line: &str| -> (b: bool)
            ensures
                b == name_match(line@, appname@),
            {
                let t = split_ws(&chars_of(line));
                if t.len() >= 3 {
                    let class = &t[2];
                    let k = before_dot_len(class);
                    let instance = subvec(class, 0, k);
                    same_chars(&instance, &name)
                } else {
                    false
                }
            };
        self.base_find(finder, Ghost(|l: Seq<char>| name_match(l, appname@)))
    }

    /// The first line whose window id (its first field) is `winid`.
    pub fn find_with_id(&self, winid: &str) -> (r: Option<&str>)
        ensures
            opt_view(r) == find_first(self@, |l: Seq<char>| id_match(l, winid@)),
    {
        let id = chars_of(winid);
        let finder = |line: &str| -> (b: bool)
            ensures
                b == id_match(line@, winid@),
            {
                let t = split_ws(&chars_of(line));
                t.len() > 0 && same_chars(&t[0], &id)
            };
        self.base_find(finder, Ghost(|l: Seq<char>| id_match(l, winid@)))
    }
}


/// Names what std's `str::to_lowercase` returns for a string: the Unicode
/// lower-case mapping of each character, as std's tables give it.
pub uninterp spec fn lowercase(s: Seq<char>) -> Seq<char>;

/// std's `str::to_lowercase`. Its result is a function of its argument
/// alone, named `lowercase`; the Unicode case tables are not restated.
#[verifier::external_body]
fn to_lowercase(s: &str) -> (r: String)
    ensures
        r@ == lowercase(s@),
{
    s.to_lowercase()
}

/// The word that marks the lines of `xwininfo -root -tree` that only count
/// a window's children.
pub open spec fn child_word() -> Seq<char> {
    seq!['c', 'h', 'i', 'l', 'd']
}

/// The lines of an `xwininfo -root -tree` output that describe windows:
/// every line trimmed, the first six (the header) dropped, and those that
/// contain `child_word()` left out.
pub open spec fn tree_lines(output: Seq<char>) -> Seq<Seq<char>> {
    let trimmed = lines(output).map_values(|l: Seq<char>| trim(l));
    let kept = if trimmed.len() <= 6 {
        Seq::<Seq<char>>::empty()
    } else {
        trimmed.skip(6)
    };
    kept.filter(|l: Seq<char>| !contains(l, child_word()))
}

/// The window lines of an `xwininfo -root -tree` output (see `tree_lines`).
pub fn process_command(output: &str) -> (r: Vec<String>)
    ensures
        strs(r@) == tree_lines(output@),
{
    let chars = chars_of(output);
    let pieces = split_lines(&chars);
    let child: Vec<char> = vec!['c', 'h', 'i', 'l', 'd'];
    assert(child@ =~= child_word());
    let ghost trimmed = lines(output@).map_values(|l: Seq<char>| trim(l));
    let ghost pred = |l: Seq<char>| !contains(l, child_word());
    let mut r: Vec<String> = Vec::new();
    if pieces.len() <= 6 {
        proof {
            reveal_with_fuel(Seq::<_>::filter, 1);
        }
        assert(strs(r@) =~= tree_lines(output@));
        return r;
    }
    let ghost kept = trimmed.skip(6);
    let mut i: usize = 6;
    proof {
        reveal_with_fuel(Seq::<_>::filter, 1);
        assert(kept.take(0) =~= Seq::<Seq<char>>::empty());
    }
    while i < pieces.len()
        invariant
            6 <= i <= pieces.len(),
            views(pieces@) == lines(output@),
            child@ == child_word(),
            trimmed == lines(output@).map_values(|l: Seq<char>| trim(l)),
            kept == trimmed.skip(6),
            pred == (|l: Seq<char>| !contains(l, child_word())),
            strs(r@) == kept.take(i - 6).filter(pred),
        decreases pieces.len() - i,
    {
        let (a, b) = trim_range(&pieces[i]);
        let t = subvec(&pieces[i], a, b);
        assert(t@ == kept[i - 6]);
        let ghost before = strs(r@);
        if !contains_seq(&t, &child) {
            let line = string_of_range(&t, 0, t.len());
            assert(t@.subrange(0, t@.len() as int) =~= t@);
            r.push(line);
            assert(strs(r@) =~= before.push(kept[i - 6]));
        } else {
            assert(strs(r@) =~= before);
        }
        proof {
            reveal_with_fuel(Seq::<_>::filter, 1);
            assert(kept.take(i - 5).drop_last() =~= kept.take(i - 6));
        }
        i = i + 1;
    }
    assert(kept.take(i - 6) =~= kept);
    r
}

/// A window line of `xwininfo -root -tree` is taken for `needle` when it has
/// at least three whitespace-separated fields and the third field from the
/// end (the class name), trimmed and lower-cased, contains `needle`
/// lower-cased.
pub open spec fn tree_match(line: Seq<char>, needle: Seq<char>) -> bool {
    let t = tokens(line);
    t.len() >= 3 && contains(lowercase(trim(t[t.len() - 3])), lowercase(needle))
}

/// Whether the lower-cased class name `class_lower` contains the lower-cased
/// `needle_lower`.
pub fn class_contains(class_lower: &str, needle_lower: &str) -> (b: bool)
    ensures
        b == contains(class_lower@, needle_lower@),
{
    contains_seq(&chars_of(class_lower), &chars_of(needle_lower))
}

/// The first field of an optional line.
pub open spec fn first_field(r: Option<Seq<char>>) -> Option<Seq<char>> {
    match r {
        Some(l) => Some(tokens(l)[0]),
        None => None,
    }
}

/// The class name of a window line of `xwininfo -root -tree`: its third
/// field from the end, trimmed, when it has at least three fields.
pub open spec fn class_of(line: Seq<char>) -> Option<Seq<char>> {
    let t = tokens(line);
    if t.len() >= 3 {
        Some(trim(t[t.len() - 3]))
    } else {
        None
    }
}

/// The views of a sequence of optional strings.
pub open spec fn opt_strs(s: Seq<Option<String>>) -> Seq<Option<Seq<char>>> {
    s.map_values(|o: Option<String>| opt_string_view(o))
}

/// The window id (first field) of the first line of `tree` whose entry in
/// `classes` is a class containing `needle`, scanning both in step.
pub open spec fn pick_by_class(
    tree: Seq<Seq<char>>,
    classes: Seq<Option<Seq<char>>>,
    needle: Seq<char>,
) -> Option<Seq<char>>
    decreases tree.len(),
{
    if tree.len() == 0 || classes.len() == 0 {
        None
    } else if classes[0] matches Some(c) && contains(c, needle) && tokens(tree[0]).len() > 0 {
        Some(tokens(tree[0])[0])
    } else {
        pick_by_class(tree.drop_first(), classes.drop_first(), needle)
    }
}

/// The window id of the first line of `tree` whose class, as given
/// (already lower-cased) in `classes_lower`, contains `needle_lower`
/// (see `pick_by_class`).
pub fn pick_window(tree: &Vec<String>, classes_lower: &Vec<Option<String>>, needle_lower: &str) -> (r:
    Option<String>)
    ensures
        opt_string_view(r) == pick_by_class(strs(tree@), opt_strs(classes_lower@), needle_lower@),
{
    let ghost ts = strs(tree@);
    let ghost cs = opt_strs(classes_lower@);
    let mut i: usize = 0;
    assert(ts.skip(0) =~= ts);
    assert(cs.skip(0) =~= cs);
    while i < tree.len() && i < classes_lower.len()
        invariant
            i <= tree.len(),
            i <= classes_lower.len(),
            ts == strs(tree@),
            cs == opt_strs(classes_lower@),
            pick_by_class(ts, cs, needle_lower@) == pick_by_class(
                ts.skip(i as int),
                cs.skip(i as int),
                needle_lower@,
            ),
        decreases tree.len() - i,
    {
        assert(ts.skip(i as int)[0] == tree[i as int]@);
        assert(cs.skip(i as int)[0] == opt_string_view(classes_lower[i as int]));
        if let Some(class) = &classes_lower[i] {
            if class_contains(class.as_str(), needle_lower) {
                let t = split_ws(&chars_of(tree[i].as_str()));
                if t.len() > 0 {
                    let id = string_of_range(&t[0], 0, t[0].len());
                    assert(t[0]@.subrange(0, t[0]@.len() as int) =~= t[0]@);
                    return Some(id);
                }
            }
        }
        assert(ts.skip(i as int).drop_first() =~= ts.skip(i + 1));
        assert(cs.skip(i as int).drop_first() =~= cs.skip(i + 1));
        i = i + 1;
    }
    assert(ts.skip(i as int).len() == 0 || cs.skip(i as int).len() == 0);
    None
}

/// When `classes` holds the lower-cased class of each line of `tree`,
/// picking by class with the lower-cased needle gives the window id of the
/// first line taken for `needle`.
pub proof fn lemma_pick_by_class(tree: Seq<Seq<char>>, classes: Seq<Option<Seq<char>>>, needle: Seq<char>)
    requires
        classes.len() == tree.len(),
        forall|i: int|
            0 <= i < tree.len() ==> #[trigger] classes[i] == match class_of(tree[i]) {
                Some(c) => Some(lowercase(c)),
                None => None,
            },
    ensures
        pick_by_class(tree, classes, lowercase(needle)) == first_field(
            find_first(tree, |l: Seq<char>| tree_match(l, needle)),
        ),
    decreases tree.len(),
{
    if tree.len() > 0 {
        let c0 = classes[0];
        assert(c0 == classes[0]);
        let rt = tree.drop_first();
        let rc = classes.drop_first();
        assert forall|i: int| 0 <= i < rt.len() implies #[trigger] rc[i] == match class_of(rt[i]) {
            Some(c) => Some(lowercase(c)),
            None => None,
        } by {
            assert(rc[i] == classes[i + 1]);
            assert(rt[i] == tree[i + 1]);
        }
        lemma_pick_by_class(rt, rc, needle);
    }
}

/// The window id (the first field) of the first window line of `tree` that
/// is taken for `needle` (see `tree_match`), if there is one.
pub fn win_root_tree(tree: &Vec<String>, needle: &str) -> (r: Option<String>)
    ensures
        opt_string_view(r) == first_field(find_first(strs(tree@), |l: Seq<char>| tree_match(l, needle@))),
{
    let needle_low = to_lowercase(needle);
    let ghost ls = strs(tree@);
    let mut classes: Vec<Option<String>> = Vec::new();
    let mut i: usize = 0;
    while i < tree.len()
        invariant
            i <= tree.len(),
            ls == strs(tree@),
            classes.len() == i,
            forall|k: int|
                0 <= k < i ==> #[trigger] opt_strs(classes@)[k] == match class_of(ls[k]) {
                    Some(c) => Some(lowercase(c)),
                    None => None,
                },
        decreases tree.len() - i,
    {
        let line = chars_of(tree[i].as_str());
        assert(ls[i as int] == line@);
        let t = split_ws(&line);
        assert(views(t@) == tokens(line@));
        let ghost before = classes@;
        if t.len() >= 3 {
            let cls = &t[t.len() - 3];
            assert(cls@ == tokens(line@)[tokens(line@).len() - 3]);
            let (a, b) = trim_range(cls);
            let trimmed = string_of_range(cls, a, b);
            classes.push(Some(to_lowercase(trimmed.as_str())));
        } else {
            classes.push(None);
        }
        assert forall|k: int| 0 <= k < i + 1 implies #[trigger] opt_strs(classes@)[k] == match class_of(ls[k]) {
            Some(c) => Some(lowercase(c)),
            None => None,
        } by {
            if k < i {
                assert(classes@[k] == before[k]);
                assert(opt_strs(before)[k] == opt_strs(classes@)[k]);
            }
        }
        i = i + 1;
    }
    proof {
        lemma_pick_by_class(ls, opt_strs(classes@), needle@);
    }
    pick_window(tree, &classes, needle_low.as_str())
}

/// The window id that `xdotool getactivewindow` reports as the decimal
/// number `n`, written as "0x" and the lower-case hexadecimal digits of `n`
/// taken as a 32-bit pattern.
pub open spec fn hex_window_id(n: i32) -> Seq<char> {
    seq!['0', 'x'] + hex_digits(n as u32 as nat)
}

/// The number that an output of `xdotool getactivewindow` holds: the
/// output trimmed and read as an `i32` (see `decimal_i32`).
pub fn active_window_number(output: &str) -> (r: Option<i32>)
    ensures
        r == decimal_i32(trim(output@)),
{
    let chars = chars_of(output);
    let (a, b) = trim_range(&chars);
    let t = subvec(&chars, a, b);
    parse_i32(&t)
}

/// The active window's id from the output of `xdotool getactivewindow`:
/// none for an empty output, else the number it holds in hexadecimal
/// (see `hex_window_id`). An output that is not empty must hold a number.
pub fn getactivewindow(output: &str) -> (r: Option<String>)
    requires
        output@.len() == 0 || decimal_i32(trim(output@)) is Some,
    ensures
        output@.len() == 0 ==> r is None,
        output@.len() > 0 ==> opt_string_view(r) == Some(
            hex_window_id(decimal_i32(trim(output@))->0),
        ),
{
    if output.unicode_len() == 0 {
        return None;
    }
    match active_window_number(output) {
        Some(n) => {
            let mut id = String::new();
            id.push('0');
            id.push('x');
            push_hex(&mut id, n as u32);
            assert(id@ =~= hex_window_id(n));
            Some(id)
        },
        None => None,
    }
}

} // verus!
