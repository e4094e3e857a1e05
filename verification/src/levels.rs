//! The level list of the main menu, the names it shows, the asset path of a
//! chosen level and the presence line while a level is played.
//!
//! The menu cuts paths at byte offsets, so these specifications
//! speak of the UTF-8 bytes of a path (`encode_utf8` of its characters).

use vstd::prelude::*;
use vstd::utf8::*;
use vstd::string::StringSliceAdditionalSpecFns;
use crate::text::{char_upper, upper_case, push_str};

verus! {

broadcast use {encode_utf8_valid_utf8, encode_utf8_decode_utf8};

/// The UTF-8 bytes of a character sequence.
pub open spec fn bytes_of(s: Seq<char>) -> Seq<u8> {
    encode_utf8(s)
}

/// The characters encoded by bytes `from..` of `s`.
pub open spec fn chars_from_byte(s: Seq<char>, from: int) -> Seq<char> {
    decode_utf8(bytes_of(s).subrange(from, bytes_of(s).len() as int))
}

/// Whether byte offset `at` of `s` may start or end a slice of it.
pub open spec fn boundary(s: Seq<char>, at: int) -> bool {
    is_char_boundary(bytes_of(s), at)
}

/// The suffix a level file ends with.
pub open spec fn level_suffix() -> Seq<char> {
    seq!['.', 'g', 'l', 'b']
}

/// Whether a path names a level scene: it ends with ".glb".
pub open spec fn is_level_path(s: Seq<char>) -> bool {
    s.len() >= 4 && s.subrange(s.len() - 4, s.len() as int) == level_suffix()
}

/// The number of characters after the last '/' (all of them when there is none).
pub open spec fn tail_len(s: Seq<char>) -> nat
    decreases s.len(),
{
    if s.len() == 0 {
        0
    } else if s.last() == '/' {
        0
    } else {
        tail_len(s.drop_last()) + 1
    }
}

/// Where the menu's naming starts its cut: the byte length of the path less
/// the number of characters after its last '/'.
pub open spec fn name_start(s: Seq<char>) -> int {
    bytes_of(s).len() - tail_len(s)
}

/// Where the naming ends its cut: four bytes before the end.
pub open spec fn name_end(s: Seq<char>) -> int {
    bytes_of(s).len() - 4
}

/// Whether naming `s` cuts it at valid places (else the cut panics).
pub open spec fn level_name_defined(s: Seq<char>) -> bool {
    &&& bytes_of(s).len() >= 4
    &&& name_start(s) <= name_end(s)
    &&& boundary(s, name_start(s))
    &&& boundary(s, name_end(s))
}

/// The characters between the naming cuts.
pub open spec fn name_stem(s: Seq<char>) -> Seq<char> {
    decode_utf8(bytes_of(s).subrange(name_start(s), name_end(s)))
}

/// `s` with its first character replaced by `first_upper` (empty stays empty).
pub open spec fn capitalized_with(first_upper: Seq<char>, s: Seq<char>) -> Seq<char> {
    if s.len() == 0 {
        s
    } else {
        first_upper + s.drop_first()
    }
}

/// `s` with its first character replaced by its uppercase mapping.
pub open spec fn capitalized(s: Seq<char>) -> Seq<char> {
    if s.len() == 0 {
        s
    } else {
        capitalized_with(char_upper(s[0]), s)
    }
}

/// The name the level menu shows for a level path.
pub open spec fn level_title(s: Seq<char>) -> Seq<char> {
    capitalized(name_stem(s))
}

proof fn lemma_scalar_len(c: char)
    ensures
        1 <= encode_scalar(c as u32).len() <= 4,
{
}

/// A UTF-8 encoding has at least one byte per character.
proof fn lemma_bytes_len_ge(s: Seq<char>)
    ensures
        bytes_of(s).len() >= s.len(),
    decreases s.len(),
{
    if s.len() > 0 {
        lemma_scalar_len(s[0]);
        lemma_bytes_len_ge(s.drop_first());
    }
}

proof fn lemma_tail_len(s: Seq<char>, k: int)
    requires
        0 <= k <= s.len(),
        k == 0 || s[k - 1] == '/',
        forall|j: int| k <= j < s.len() ==> s[j] != '/',
    ensures
        tail_len(s) == s.len() - k,
    decreases s.len(),
{
    if s.len() > k {
        lemma_tail_len(s.drop_last(), k);
    } else if s.len() > 0 {
        assert(s.last() == s[k - 1]);
    }
}

/// A boundary of a valid encoding stays one in a prefix that ends at a boundary.
proof fn lemma_boundary_in_prefix(b: Seq<u8>, i: int, end: int)
    requires
        valid_utf8(b),
        0 <= i <= end,
        is_char_boundary(b, i),
        is_char_boundary(b, end),
    ensures
        is_char_boundary(b.subrange(0, end), i),
{
    let p = b.subrange(0, end);
    valid_utf8_split(b, end);
    if i == end {
        is_char_boundary_start_end_of_seq(p);
        assert(p.len() == end);
    } else {
        is_char_boundary_iff_is_leading_byte(b, i);
        is_char_boundary_iff_is_leading_byte(p, i);
        assert(p[i] == b[i]);
    }
}

/// The number of UTF-8 bytes of a string slice.
pub fn byte_len(s: &str) -> (n: usize)
    ensures
        n == bytes_of(s@).len(),
{
    let bytes = s.as_bytes();
    bytes.len()
}

/// Where the menu's naming starts its cut, counted as the menu counts it:
/// from the byte length, one less for each character after the last '/'.
pub fn level_name_start(path: &str) -> (start: usize)
    ensures
        start == name_start(path@),
{
    let n = path.unicode_len();
    let mut i = byte_len(path);
    let mut k = n;
    let mut done = false;
    proof {
        lemma_bytes_len_ge(path@);
    }
    while !done && k > 0
        invariant
            n == path@.len(),
            k <= n,
            bytes_of(path@).len() >= n,
            i + (n - k) == bytes_of(path@).len(),
            done ==> k > 0 && path@[k - 1] == '/',
            forall|j: int| k <= j < n ==> path@[j] != '/',
        decreases k + (if done { 0int } else { 1int }),
    {
        let ch = path.get_char(k - 1);
        if ch == '/' {
            done = true;
        } else {
            i = i - 1;
            k = k - 1;
        }
    }
    proof {
        lemma_tail_len(path@, k as int);
    }
    i
}

/// The name the menu shows for a level file: the path cut between
/// `name_start` and its last four bytes, with the first character in
/// uppercase.
pub fn level_name(path: &str) -> (name: String)
    requires
        level_name_defined(path@),
    ensures
        name@ == level_title(path@),
{
    let start = level_name_start(path);
    let end = byte_len(path) - 4;
    let ghost b = bytes_of(path@);
    proof {
        lemma_boundary_in_prefix(b, start as int, end as int);
    }
    let (head, _) = path.split_at(end);
    assert(head.spec_bytes() =~= b.subrange(0, end as int));
    let (_, stem) = head.split_at(start);
    assert(stem.spec_bytes() =~= b.subrange(start as int, end as int));
    assert(stem@ == name_stem(path@)) by {
        assert(decode_utf8(encode_utf8(stem@)) == stem@);
    }
    let count = stem.unicode_len();
    if count == 0 {
        String::new()
    } else {
        let first = stem.get_char(0);
        capitalize_with(stem, upper_case(first))
    }
}

/// A name with its first character replaced by the given uppercase form of
/// it: `first_upper` followed by all but the first character of `stem`; an
/// empty `stem` gives an empty name.
pub fn capitalize_with(stem: &str, first_upper: String) -> (name: String)
    ensures
        name@ == capitalized_with(first_upper@, stem@),
{
    let count = stem.unicode_len();
    if count == 0 {
        return String::new();
    }
    let mut name = first_upper;
    let rest = stem.substring_char(1, count);
    push_str(&mut name, rest);
    assert(rest@ =~= stem@.drop_first());
    name
}

/// Whether a path names a level file: it ends with ".glb" (as
/// `str::ends_with(".glb")` decides; an ASCII suffix of the bytes is one of
/// the characters).
pub fn is_level_file(path: &str) -> (res: bool)
    ensures
        res == is_level_path(path@),
{
    let n = path.unicode_len();
    if n < 4 {
        return false;
    }
    let res = path.get_char(n - 4) == '.' && path.get_char(n - 3) == 'g'
        && path.get_char(n - 2) == 'l' && path.get_char(n - 1) == 'b';
    proof {
        let tail = path@.subrange(n - 4, n as int);
        if res {
            assert(tail =~= level_suffix());
        } else {
            assert(tail[0] != '.' || tail[1] != 'g' || tail[2] != 'l' || tail[3] != 'b');
            assert(tail != level_suffix());
        }
    }
    res
}

/// Whether `level_name` may be called on `path`.
fn name_cuts_valid(path: &str) -> (res: bool)
    ensures
        res == level_name_defined(path@),
{
    let blen = byte_len(path);
    if blen < 4 {
        return false;
    }
    let start = level_name_start(path);
    start <= blen - 4 && path.is_char_boundary(start) && path.is_char_boundary(blen - 4)
}

/// One line of the level menu: the shown name and the path it stands for.
pub struct LevelEntry {
    pub name: String,
    pub path: String,
}

/// The characters of each path.
pub open spec fn path_views(paths: Seq<String>) -> Seq<Seq<char>> {
    paths.map_values(|p: String| p@)
}

/// The (name, path) characters of each menu line.
pub open spec fn entry_views(entries: Seq<LevelEntry>) -> Seq<(Seq<char>, Seq<char>)> {
    entries.map_values(|e: LevelEntry| (e.name@, e.path@))
}

/// The menu lines for a directory listing: one per level file, in listing
/// order, each with its title and its path.
pub open spec fn menu_entries(paths: Seq<Seq<char>>) -> Seq<(Seq<char>, Seq<char>)>
    decreases paths.len(),
{
    if paths.len() == 0 {
        seq![]
    } else {
        let rest = menu_entries(paths.drop_last());
        let p = paths.last();
        if is_level_path(p) {
            rest.push((level_title(p), p))
        } else {
            rest
        }
    }
}

/// Whether every level file of a listing can be named.
pub open spec fn menu_defined(paths: Seq<Seq<char>>) -> bool {
    forall|i: int| 0 <= i < paths.len() && is_level_path(#[trigger] paths[i])
        ==> level_name_defined(paths[i])
}

/// The level menu built from a listing of the scene directory. `None` when
/// some level file cannot be named: its cut would fall inside a character,
/// which the game treats as a fatal error.
pub fn level_menu(paths: &Vec<String>) -> (res: Option<Vec<LevelEntry>>)
    ensures
        res is Some <==> menu_defined(path_views(paths@)),
        res matches Some(entries) ==> entry_views(entries@) == menu_entries(path_views(paths@)),
{
    let ghost views = path_views(paths@);
    let mut entries: Vec<LevelEntry> = Vec::new();
    let mut i: usize = 0;
    while i < paths.len()
        invariant
            i <= paths.len(),
            views == path_views(paths@),
            entry_views(entries@) == menu_entries(views.take(i as int)),
            menu_defined(views.take(i as int)),
        decreases paths.len() - i,
    {
        let path = paths[i].as_str();
        assert(views.take(i + 1).drop_last() =~= views.take(i as int));
        assert(views.take(i + 1).last() == path@);
        if is_level_file(path) {
            if !name_cuts_valid(path) {
                assert(!menu_defined(views)) by {
                    assert(is_level_path(views[i as int]));
                }
                return None;
            }
            let entry = LevelEntry { name: level_name(path), path: paths[i].clone() };
            let ghost before = entries@;
            let ghost shown = (entry.name@, entry.path@);
            entries.push(entry);
            assert(entry_views(entries@) =~= entry_views(before).push(shown));
        }
        assert(menu_defined(views.take(i + 1))) by {
            assert forall|j: int| 0 <= j < i + 1 && is_level_path(#[trigger] views.take(i + 1)[j])
                implies level_name_defined(views.take(i + 1)[j]) by {
                if j < i {
                    assert(views.take(i + 1)[j] == views.take(i as int)[j]);
                }
            }
        }
        i = i + 1;
    }
    assert(views.take(paths.len() as int) =~= views);
    Some(entries)
}

/// Whether a listed path can be cut after its "./assets/" prefix: its
/// ninth byte ends a character (the cut panics otherwise).
pub open spec fn asset_path_defined(s: Seq<char>) -> bool {
    bytes_of(s).len() >= 9 && boundary(s, 9)
}

/// The path of a level as the asset server knows it: the listed path less
/// its first nine bytes ("./assets/").
pub open spec fn asset_path(s: Seq<char>) -> Seq<char> {
    chars_from_byte(s, 9)
}

/// The asset path stored as the current level when a menu line is chosen.
pub fn level_asset_path(path: &str) -> (res: String)
    requires
        asset_path_defined(path@),
    ensures
        res@ == asset_path(path@),
{
    let (_, tail) = path.split_at(9);
    assert(decode_utf8(encode_utf8(tail@)) == tail@);
    String::from_str(tail)
}

/// The encoding of a concatenation is the concatenation of the encodings.
proof fn lemma_encode_concat(a: Seq<char>, b: Seq<char>)
    ensures
        bytes_of(a + b) == bytes_of(a) + bytes_of(b),
    decreases a.len(),
{
    if a.len() == 0 {
        assert(a + b =~= b);
        assert(bytes_of(a) =~= seq![]);
        assert(bytes_of(a) + bytes_of(b) =~= bytes_of(b));
    } else {
        assert((a + b).drop_first() =~= a.drop_first() + b);
        lemma_encode_concat(a.drop_first(), b);
        assert((a + b)[0] == a[0]);
        assert(bytes_of(a + b) =~= bytes_of(a) + bytes_of(b));
    }
}

/// The byte offset where the first `k` characters end is a boundary.
proof fn lemma_prefix_boundary(s: Seq<char>, k: int)
    requires
        0 <= k <= s.len(),
    ensures
        boundary(s, bytes_of(s.take(k)).len() as int),
    decreases k,
{
    if k > 0 {
        let b = bytes_of(s);
        encode_utf8_first_scalar(s);
        assert(pop_first_scalar(b) =~= bytes_of(s.drop_first()));
        lemma_prefix_boundary(s.drop_first(), k - 1);
        assert(s.take(k) =~= seq![s[0]] + s.drop_first().take(k - 1));
        lemma_encode_concat(seq![s[0]], s.drop_first().take(k - 1));
        let one = seq![s[0]];
        assert(one[0] == s[0]);
        assert(one.drop_first() =~= Seq::<char>::empty());
        assert(encode_utf8(Seq::<char>::empty()) =~= Seq::<u8>::empty());
        assert(bytes_of(one) =~= encode_scalar(s[0] as u32));
        lemma_scalar_len(s[0]);
    }
}

/// The characters between the ends of the first `i` and the first `j`
/// characters are characters `i..j`.
proof fn lemma_slice_chars(s: Seq<char>, i: int, j: int)
    requires
        0 <= i <= j <= s.len(),
    ensures
        decode_utf8(bytes_of(s).subrange(bytes_of(s.take(i)).len() as int, bytes_of(s.take(j)).len() as int))
            == s.subrange(i, j),
{
    let mid = s.subrange(i, j);
    assert(s =~= s.take(i) + mid + s.skip(j));
    assert(s.take(j) =~= s.take(i) + mid);
    lemma_encode_concat(s.take(i) + mid, s.skip(j));
    lemma_encode_concat(s.take(i), mid);
    let b = bytes_of(s);
    assert(b.subrange(bytes_of(s.take(i)).len() as int, bytes_of(s.take(j)).len() as int) =~= bytes_of(mid));
}

/// An ASCII sequence has one byte per character.
proof fn lemma_ascii_len(s: Seq<char>)
    requires
        is_ascii_chars(s),
    ensures
        bytes_of(s).len() == s.len(),
{
    is_ascii_chars_encode_utf8(s);
}

/// Cutting after an ASCII prefix: the cut is valid and leaves the rest.
pub proof fn lemma_cut_after_ascii(prefix: Seq<char>, rest: Seq<char>)
    requires
        is_ascii_chars(prefix),
    ensures
        boundary(prefix + rest, prefix.len() as int),
        bytes_of(prefix + rest).len() >= prefix.len(),
        chars_from_byte(prefix + rest, prefix.len() as int) == rest,
{
    let s = prefix + rest;
    assert(s.take(prefix.len() as int) =~= prefix);
    assert(s.take(s.len() as int) =~= s);
    lemma_ascii_len(prefix);
    lemma_prefix_boundary(s, prefix.len() as int);
    lemma_slice_chars(s, prefix.len() as int, s.len() as int);
    lemma_encode_concat(prefix, rest);
    assert(s.subrange(prefix.len() as int, s.len() as int) =~= rest);
}

/// A path whose file name is ASCII is named by its file name less its last
/// four characters (the ".glb" of a level file), first letter in uppercase:
/// for a path made of a directory part (empty or ending in '/') and an
/// ASCII file name without '/' of at least four characters, the menu can
/// name it, and the title is the capitalised file name less its last four
/// characters.
pub proof fn lemma_ascii_level_title(dir: Seq<char>, file: Seq<char>)
    requires
        dir.len() == 0 || dir.last() == '/',
        is_ascii_chars(file),
        forall|j: int| 0 <= j < file.len() ==> file[j] != '/',
        file.len() >= 4,
    ensures
        level_name_defined(dir + file),
        level_title(dir + file) == capitalized(file.take(file.len() - 4)),
{
    let s = dir + file;
    let d = dir.len() as int;
    let e = d + file.len() - 4;
    lemma_tail_len(s, d);
    lemma_encode_concat(dir, file);
    lemma_ascii_len(file);
    assert(s.take(d) =~= dir);
    let front = file.take(file.len() - 4);
    assert(s.take(e) =~= dir + front);
    assert(is_ascii_chars(front));
    lemma_ascii_len(front);
    lemma_encode_concat(dir, front);
    lemma_prefix_boundary(s, d);
    lemma_prefix_boundary(s, e);
    lemma_slice_chars(s, d, e);
    assert(s.subrange(d, e) =~= front);
}

} // verus!
