//! Which release asset is the AppImage of which CPU architecture.
//!
//! An asset is the x86_64 AppImage when its name matches, ignoring ASCII
//! case, `^.*(x86_64|amd64).*\.AppImage$`, and the aarch64 AppImage when it
//! matches `^.*aarch64.*\.AppImage$` the same way. In these patterns `.`
//! stands for any character but a line feed, and `$` for the end of the
//! name.
use vstd::prelude::*;

verus! {

/// `c` equals the pattern character `p` when case is ignored; `p` is a
/// lowercase letter, a digit or punctuation.
pub open spec fn char_matches(c: char, p: char) -> bool {
    c == p || ('a' <= p <= 'z' && c as u32 + 32 == p as u32)
}

/// `lit` occurs in `s` at position `i`, case ignored.
pub open spec fn literal_at(s: Seq<char>, i: int, lit: Seq<char>) -> bool {
    &&& 0 <= i
    &&& i + lit.len() <= s.len()
    &&& forall|j: int| 0 <= j < lit.len() ==> char_matches(#[trigger] s[i + j], lit[j])
}

/// `lit` occurs somewhere in `s`, case ignored.
pub open spec fn contains_literal(s: Seq<char>, lit: Seq<char>) -> bool {
    exists|i: int| literal_at(s, i, lit)
}

pub open spec fn appimage_suffix() -> Seq<char> {
    seq!['.', 'a', 'p', 'p', 'i', 'm', 'a', 'g', 'e']
}

pub open spec fn x86_64_tag() -> Seq<char> {
    seq!['x', '8', '6', '_', '6', '4']
}

pub open spec fn amd64_tag() -> Seq<char> {
    seq!['a', 'm', 'd', '6', '4']
}

pub open spec fn aarch64_tag() -> Seq<char> {
    seq!['a', 'a', 'r', 'c', 'h', '6', '4']
}

/// The name is one line that ends in `.AppImage` and names the
/// architecture (one of `tags`) before that ending.
pub open spec fn is_appimage_of(name: Seq<char>, tags: Seq<Seq<char>>) -> bool {
    &&& !name.contains('\n')
    &&& name.len() >= 9
    &&& literal_at(name, name.len() - 9, appimage_suffix())
    &&& exists|k: int| 0 <= k < tags.len() && contains_literal(name.take(name.len() - 9), #[trigger] tags[k])
}

/// The name of an x86_64 AppImage.
pub open spec fn is_x86_64_appimage(name: Seq<char>) -> bool {
    is_appimage_of(name, seq![x86_64_tag(), amd64_tag()])
}

/// The name of an aarch64 AppImage.
pub open spec fn is_aarch64_appimage(name: Seq<char>) -> bool {
    is_appimage_of(name, seq![aarch64_tag()])
}

/// A literal occurs at a position exactly when it fits there and each of
/// its characters is the name's character there, or, for a lowercase ASCII
/// letter, the name's character is its uppercase form.
pub proof fn lemma_literal_at_chars(s: Seq<char>, i: int, lit: Seq<char>)
    ensures
        literal_at(s, i, lit) <==> (0 <= i && i + lit.len() <= s.len() && forall|j: int|
            0 <= j < lit.len() ==> (#[trigger] s[i + j] == lit[j] || ('a' <= lit[j] <= 'z' && s[i
                + j] as u32 + 32 == lit[j] as u32))),
{
}

/// The name with its last `n` characters left off holds `lit` at `i`
/// exactly when the name holds `lit` at `i` and it ends before those `n`.
proof fn lemma_literal_in_prefix(name: Seq<char>, n: int, i: int, lit: Seq<char>)
    requires
        0 <= n <= name.len(),
    ensures
        literal_at(name.take(name.len() - n), i, lit) <==> (literal_at(name, i, lit) && i
            + lit.len() <= name.len() - n),
{
    let t = name.take(name.len() - n);
    if literal_at(t, i, lit) {
        assert forall|j: int| 0 <= j < lit.len() implies char_matches(#[trigger] name[i + j], lit[j]) by {
            assert(t[i + j] == name[i + j]);
        }
    }
    if literal_at(name, i, lit) && i + lit.len() <= name.len() - n {
        assert forall|j: int| 0 <= j < lit.len() implies char_matches(#[trigger] t[i + j], lit[j]) by {
            assert(t[i + j] == name[i + j]);
        }
    }
}

/// A name is an x86_64 AppImage exactly when it holds no line feed, ends in
/// `.AppImage` (case ignored), and holds `x86_64` or `amd64` (case ignored)
/// at some position, whichever, that ends before that ending.
pub proof fn lemma_x86_64_appimage_names(name: Seq<char>)
    ensures
        is_x86_64_appimage(name) <==> {
            &&& forall|j: int| 0 <= j < name.len() ==> #[trigger] name[j] != '\n'
            &&& name.len() >= 9
            &&& literal_at(name, name.len() - 9, seq!['.', 'a', 'p', 'p', 'i', 'm', 'a', 'g', 'e'])
            &&& (exists|i: int|
                i + 6 <= name.len() - 9 && literal_at(name, i, seq!['x', '8', '6', '_', '6', '4']))
                || (exists|i: int|
                i + 5 <= name.len() - 9 && literal_at(name, i, seq!['a', 'm', 'd', '6', '4']))
        },
{
    let x86 = seq!['x', '8', '6', '_', '6', '4'];
    let amd = seq!['a', 'm', 'd', '6', '4'];
    let tags = seq![x86_64_tag(), amd64_tag()];
    assert(tags[0] == x86);
    assert(tags[1] == amd);
    if name.len() >= 9 {
        let t = name.take(name.len() - 9);
        if exists|k: int| 0 <= k < tags.len() && contains_literal(t, #[trigger] tags[k]) {
            let k = choose|k: int| 0 <= k < tags.len() && contains_literal(t, #[trigger] tags[k]);
            let i = choose|i: int| literal_at(t, i, tags[k]);
            lemma_literal_in_prefix(name, 9, i, tags[k]);
            if k == 0 {
                assert(i + 6 <= name.len() - 9 && literal_at(name, i, x86));
            } else {
                assert(i + 5 <= name.len() - 9 && literal_at(name, i, amd));
            }
        }
        if exists|i: int| i + 6 <= name.len() - 9 && literal_at(name, i, x86) {
            let i = choose|i: int| i + 6 <= name.len() - 9 && literal_at(name, i, x86);
            lemma_literal_in_prefix(name, 9, i, x86);
            assert(literal_at(t, i, tags[0]));
            assert(contains_literal(t, tags[0]));
        }
        if exists|i: int| i + 5 <= name.len() - 9 && literal_at(name, i, amd) {
            let i = choose|i: int| i + 5 <= name.len() - 9 && literal_at(name, i, amd);
            lemma_literal_in_prefix(name, 9, i, amd);
            assert(literal_at(t, i, tags[1]));
            assert(contains_literal(t, tags[1]));
        }
    }
    assert(name.contains('\n') <==> exists|j: int| 0 <= j < name.len() && name[j] == '\n');
}

/// A name is an aarch64 AppImage exactly when it holds no line feed, ends in
/// `.AppImage` (case ignored), and holds `aarch64` (case ignored) at some
/// position, whichever, that ends before that ending.
pub proof fn lemma_aarch64_appimage_names(name: Seq<char>)
    ensures
        is_aarch64_appimage(name) <==> {
            &&& forall|j: int| 0 <= j < name.len() ==> #[trigger] name[j] != '\n'
            &&& name.len() >= 9
            &&& literal_at(name, name.len() - 9, seq!['.', 'a', 'p', 'p', 'i', 'm', 'a', 'g', 'e'])
            &&& exists|i: int|
                i + 7 <= name.len() - 9 && literal_at(name, i, seq!['a', 'a', 'r', 'c', 'h', '6', '4'])
        },
{
    let tags = seq![aarch64_tag()];
    assert(tags[0] == seq!['a', 'a', 'r', 'c', 'h', '6', '4']);
    if name.len() >= 9 {
        let t = name.take(name.len() - 9);
        if exists|k: int| 0 <= k < tags.len() && contains_literal(t, #[trigger] tags[k]) {
            let k = choose|k: int| 0 <= k < tags.len() && contains_literal(t, #[trigger] tags[k]);
            let i = choose|i: int| literal_at(t, i, tags[k]);
            lemma_literal_in_prefix(name, 9, i, tags[k]);
            assert(i + 7 <= name.len() - 9 && literal_at(name, i, seq!['a', 'a', 'r', 'c', 'h', '6', '4']));
        }
        if exists|i: int|
            i + 7 <= name.len() - 9 && literal_at(name, i, seq!['a', 'a', 'r', 'c', 'h', '6', '4']) {
            let i = choose|i: int|
                i + 7 <= name.len() - 9 && literal_at(name, i, seq!['a', 'a', 'r', 'c', 'h', '6', '4']);
            lemma_literal_in_prefix(name, 9, i, tags[0]);
            assert(literal_at(t, i, tags[0]));
            assert(contains_literal(t, tags[0]));
        }
    }
    assert(name.contains('\n') <==> exists|j: int| 0 <= j < name.len() && name[j] == '\n');
}

fn char_matches_exec(c: char, p: char) -> (r: bool)
    ensures
        r == char_matches(c, p),
{
    c == p || ('a' <= p && p <= 'z' && (c as u32) + 32 == p as u32)
}

fn literal_at_exec(s: &Vec<char>, i: usize, lit: &[char]) -> (r: bool)
    ensures
        r == literal_at(s@, i as int, lit@),
{
    if i > s.len() || lit.len() > s.len() - i {
        return false;
    }
    let mut j: usize = 0;
    while j < lit.len()
        invariant
            i + lit@.len() <= s.len(),
            j <= lit@.len(),
            forall|k: int| 0 <= k < j ==> char_matches(#[trigger] s@[i + k], lit@[k]),
        decreases lit@.len() - j,
    {
        if !char_matches_exec(s[i + j], lit[j]) {
            return false;
        }
        j = j + 1;
    }
    true
}

/// Whether `lit` occurs, case ignored, in the first `end` characters of `s`.
fn contains_before(s: &Vec<char>, end: usize, lit: &[char]) -> (r: bool)
    requires
        end <= s@.len(),
        lit@.len() > 0,
    ensures
        r == contains_literal(s@.take(end as int), lit@),
{
    let ghost t = s@.take(end as int);
    let mut i: usize = 0;
    while i < end
        invariant
            end <= s@.len(),
            lit@.len() > 0,
            t == s@.take(end as int),
            i <= end,
            forall|k: int| 0 <= k < i ==> !literal_at(t, k, lit@),
        decreases end - i,
    {
        if lit.len() <= end - i && literal_at_exec(s, i, lit) {
            assert(literal_at(t, i as int, lit@)) by {
                assert forall|j: int| 0 <= j < lit@.len() implies char_matches(#[trigger] t[i + j], lit@[j]) by {
                    assert(t[i + j] == s@[i + j]);
                }
            }
            return true;
        }
        assert(!literal_at(t, i as int, lit@)) by {
            if literal_at(t, i as int, lit@) {
                assert forall|j: int| 0 <= j < lit@.len() implies char_matches(#[trigger] s@[i + j], lit@[j]) by {
                    assert(t[i + j] == s@[i + j]);
                }
            }
        }
        i = i + 1;
    }
    assert forall|k: int| !literal_at(t, k, lit@) by {
        if 0 <= k < i {
        }
    }
    false
}

fn has_line_feed(s: &Vec<char>) -> (r: bool)
    ensures
        r == s@.contains('\n'),
{
    let mut i: usize = 0;
    while i < s.len()
        invariant
            i <= s@.len(),
            forall|k: int| 0 <= k < i ==> s@[k] != '\n',
        decreases s@.len() - i,
    {
        if s[i] == '\n' {
            assert(s@[i as int] == '\n');
            return true;
        }
        i = i + 1;
    }
    false
}

fn ends_in_appimage(name: &Vec<char>) -> (r: bool)
    ensures
        r == (!name@.contains('\n') && name@.len() >= 9
            && literal_at(name@, name@.len() - 9, appimage_suffix())),
{
    let suffix: [char; 9] = ['.', 'a', 'p', 'p', 'i', 'm', 'a', 'g', 'e'];
    assert(suffix@ == appimage_suffix());
    if has_line_feed(name) || name.len() < 9 {
        return false;
    }
    literal_at_exec(name, name.len() - 9, suffix.as_slice())
}

/// Whether the asset name is that of an x86_64 AppImage.
pub fn is_x86_64_asset(name: &Vec<char>) -> (r: bool)
    ensures
        r == is_x86_64_appimage(name@),
{
    let ghost tags = seq![x86_64_tag(), amd64_tag()];
    if !ends_in_appimage(name) {
        return false;
    }
    let x86: [char; 6] = ['x', '8', '6', '_', '6', '4'];
    let amd: [char; 5] = ['a', 'm', 'd', '6', '4'];
    assert(x86@ == x86_64_tag());
    assert(amd@ == amd64_tag());
    let end = name.len() - 9;
    let found = contains_before(name, end, x86.as_slice()) || contains_before(name, end, amd.as_slice());
    assert(tags[0] == x86_64_tag() && tags[1] == amd64_tag());
    found
}

/// Whether the asset name is that of an aarch64 AppImage.
pub fn is_aarch64_asset(name: &Vec<char>) -> (r: bool)
    ensures
        r == is_aarch64_appimage(name@),
{
    let ghost tags = seq![aarch64_tag()];
    if !ends_in_appimage(name) {
        return false;
    }
    let arm: [char; 7] = ['a', 'a', 'r', 'c', 'h', '6', '4'];
    assert(arm@ == aarch64_tag());
    let found = contains_before(name, name.len() - 9, arm.as_slice());
    assert(tags[0] == aarch64_tag());
    found
}

} // verus!
