//! The rename rules: validation and the transformation of one file name.

use vstd::prelude::*;
use crate::text::{
    alphabetic, alphanumeric, chars_of, char_lower, char_upper, copy_range, fold, fold_chars,
    is_alphabetic, is_alphanumeric, is_white_space, lower_first, lower_of, push_all, string_of,
    text_is, to_lower, to_upper, upper_first, upper_of, white_space,
};
use crate::decimal::{format_padded, formatted, lemma_formatted_injective};

verus! {

/// One declarative rename rule; exactly one variant is active.
#[allow(inconsistent_fields)]
#[derive(Debug, Clone)]
pub enum RenameRule {
    /// Replaces `find` by `replace` in the whole name.
    Replace { find: String, replace: String, regex: bool, case_sensitive: bool },
    /// Appends `_` and the zero-padded number `start + index * step` to the stem.
    Sequence { start: i64, step: i64, width: usize, order: String },
    /// Replaces the character range `[start, end)` of the stem.
    Slice { start: isize, end: Option<isize>, replacement: String },
    /// Changes the case of the stem: `upper`, `lower`, `title`, `snake` or `kebab`.
    Case { mode: String },
    /// Replaces, strips or keeps the extension.
    Extension { new_extension: Option<String>, keep_original: bool },
}

/// The outcome of previewing one file.
#[derive(Debug)]
pub struct PreviewResult {
    pub original_name: String,
    pub new_name: String,
    pub has_conflict: bool,
    pub has_invalid_chars: bool,
    pub error_message: Option<String>,
}

/// The step used by a sequence rule when none is given.
pub fn default_step() -> (r: i64)
    ensures
        r == 1,
{
    1
}

/// The width used by a sequence rule when none is given.
pub fn default_width() -> (r: usize)
    ensures
        r == 2,
{
    2
}

/// The order used by a sequence rule when none is given.
pub fn default_order() -> (r: String)
    ensures
        r@ == "current"@,
{
    String::from_str("current")
}

// ---------------------------------------------------------------- names

/// Index of the last `'.'` in `s`, or -1 when there is none.
pub open spec fn last_dot(s: Seq<char>) -> int
    decreases s.len(),
{
    if s.len() == 0 {
        -1
    } else if s.last() == '.' {
        s.len() - 1
    } else {
        last_dot(s.drop_last())
    }
}

/// The name without its extension.
pub open spec fn stem_of(s: Seq<char>) -> Seq<char> {
    if last_dot(s) < 0 { s } else { s.take(last_dot(s)) }
}

/// The extension, from the last `'.'` on (empty when there is no `'.'`).
pub open spec fn ext_of(s: Seq<char>) -> Seq<char> {
    if last_dot(s) < 0 { Seq::empty() } else { s.skip(last_dot(s)) }
}

/// `last_dot` is -1 or the position of a `'.'` with none after it.
pub proof fn lemma_last_dot(s: Seq<char>)
    ensures
        -1 <= last_dot(s) < s.len(),
        last_dot(s) >= 0 ==> s[last_dot(s)] == '.',
        forall|k: int| last_dot(s) < k < s.len() ==> s[k] != '.',
    decreases s.len(),
{
    if s.len() > 0 && s.last() != '.' {
        lemma_last_dot(s.drop_last());
        assert forall|k: int| last_dot(s) < k < s.len() implies s[k] != '.' by {
            if k < s.len() - 1 {
                assert(s[k] == s.drop_last()[k]);
            }
        }
    }
}

/// Stem and extension together make up the name.
pub proof fn lemma_stem_ext(s: Seq<char>)
    ensures
        stem_of(s) + ext_of(s) == s,
        ext_of(s).len() == 0 || ext_of(s)[0] == '.',
        forall|k: int| 0 < k < ext_of(s).len() ==> ext_of(s)[k] != '.',
{
    lemma_last_dot(s);
    assert(stem_of(s) + ext_of(s) =~= s);
}

fn find_last_dot(v: &Vec<char>) -> (r: Option<usize>)
    ensures
        match r {
            Some(i) => last_dot(v@) == i as int,
            None => last_dot(v@) == -1,
        },
{
    let mut i: usize = v.len();
    assert(v@.take(i as int) =~= v@);
    while i > 0
        invariant
            i <= v.len(),
            last_dot(v@) == last_dot(v@.take(i as int)),
        decreases i,
    {
        assert(v@.take(i as int).drop_last() =~= v@.take(i - 1));
        if v[i - 1] == '.' {
            return Some(i - 1);
        }
        i = i - 1;
    }
    None
}

/// Splits a name into stem and extension.
pub fn split_chars(v: &Vec<char>) -> (r: (Vec<char>, Vec<char>))
    ensures
        r.0@ == stem_of(v@),
        r.1@ == ext_of(v@),
{
    proof { lemma_last_dot(v@); }
    match find_last_dot(v) {
        Some(i) => (copy_range(v, 0, i), copy_range(v, i, v.len())),
        None => (copy_range(v, 0, v.len()), Vec::new()),
    }
}

/// Splits a file name into the part before its last `'.'` and the rest.
pub fn split_filename(filename: &str) -> (r: (String, String))
    ensures
        r.0@ == stem_of(filename@),
        r.1@ == ext_of(filename@),
{
    let v = chars_of(filename);
    let (stem, ext) = split_chars(&v);
    (string_of(&stem), string_of(&ext))
}

// ---------------------------------------------------------------- characters

/// A character that a file name may not hold.
pub open spec fn forbidden_char(c: char) -> bool {
    c == '<' || c == '>' || c == ':' || c == '"' || c == '/' || c == '\\' || c == '|'
        || c == '?' || c == '*' || (c as u32) < 0x20 || (0x7f <= (c as u32) && (c as u32) <= 0x9f)
}

/// Whether `s` holds a forbidden character.
pub open spec fn holds_forbidden(s: Seq<char>) -> bool {
    exists|i: int| 0 <= i < s.len() && forbidden_char(#[trigger] s[i])
}

fn is_forbidden(c: char) -> (r: bool)
    ensures
        r == forbidden_char(c),
{
    c == '<' || c == '>' || c == ':' || c == '"' || c == '/' || c == '\\' || c == '|'
        || c == '?' || c == '*' || (c as u32) < 0x20 || (0x7f <= (c as u32) && (c as u32) <= 0x9f)
}

/// Whether the name holds a control character (U+0000..U+001F, U+007F..U+009F)
/// or one of `<>:"/\|?*`.
pub fn has_invalid_chars(filename: &str) -> (r: bool)
    ensures
        r == holds_forbidden(filename@),
{
    let v = chars_of(filename);
    let mut i: usize = 0;
    while i < v.len()
        invariant
            i <= v.len(),
            v@ == filename@,
            forall|k: int| 0 <= k < i ==> !forbidden_char(#[trigger] v@[k]),
        decreases v.len() - i,
    {
        if is_forbidden(v[i]) {
            return true;
        }
        i = i + 1;
    }
    false
}

// ---------------------------------------------------------------- conflicts

/// Whether `keys[i]` equals some other entry of `keys`.
pub open spec fn duplicated(keys: Seq<String>, i: int) -> bool {
    exists|j: int| 0 <= j < keys.len() && j != i && (#[trigger] keys[j])@ == keys[i]@
}

/// The texts of a sequence of strings.
pub open spec fn views(s: Seq<String>) -> Seq<Seq<char>> {
    s.map_values(|x: String| x@)
}

/// Whether names `i` and `j` are distinct entries that collide case-insensitively.
pub open spec fn collide(names: Seq<Seq<char>>, i: int, j: int) -> bool {
    0 <= i < names.len() && 0 <= j < names.len() && i != j
        && lower_of(names[i]) == lower_of(names[j])
}

/// Whether name `i` collides with some other name.
pub open spec fn in_conflict(names: Seq<Seq<char>>, i: int) -> bool {
    exists|j: int| #[trigger] collide(names, i, j)
}

/// For each entry, whether an equal entry stands elsewhere in `keys`.
pub fn mark_duplicates(keys: &[String]) -> (r: Vec<bool>)
    ensures
        r.len() == keys.len(),
        forall|i: int| 0 <= i < keys.len() ==> r[i] == duplicated(keys@, i),
{
    let n = keys.len();
    let mut r: Vec<bool> = Vec::new();
    let mut i: usize = 0;
    while i < n
        invariant
            i <= n == keys.len(),
            r.len() == i,
            forall|k: int| 0 <= k < i ==> r[k] == duplicated(keys@, k),
        decreases n - i,
    {
        let mut found = false;
        let mut j: usize = 0;
        while j < n
            invariant
                i < n == keys.len(),
                j <= n,
                found == exists|m: int| 0 <= m < j && m != i && (#[trigger] keys@[m])@ == keys@[i as int]@,
            decreases n - j,
        {
            if j != i && keys[j] == keys[i] {
                found = true;
            }
            j = j + 1;
        }
        r.push(found);
        i = i + 1;
    }
    r
}

/// Flags every name that equals another one, ignoring case.
pub fn detect_conflicts(filenames: &[String]) -> (r: Vec<bool>)
    ensures
        r.len() == filenames.len(),
        forall|i: int| 0 <= i < filenames.len() ==> r[i] == in_conflict(views(filenames@), i),
{
    let mut folded: Vec<String> = Vec::new();
    let mut i: usize = 0;
    while i < filenames.len()
        invariant
            i <= filenames.len(),
            folded.len() == i,
            forall|k: int| 0 <= k < i ==> (#[trigger] folded@[k])@ == lower_of(filenames@[k]@),
        decreases filenames.len() - i,
    {
        folded.push(to_lower(filenames[i].as_str()));
        i = i + 1;
    }
    let r = mark_duplicates(folded.as_slice());
    let ghost names = views(filenames@);
    assert forall|i: int| 0 <= i < filenames.len() implies r[i] == in_conflict(names, i) by {
        if r[i] {
            let j = choose|j: int| 0 <= j < folded@.len() && j != i && (#[trigger] folded@[j])@ == folded@[i]@;
            assert(collide(names, i, j));
        }
        if in_conflict(names, i) {
            let j = choose|j: int| #[trigger] collide(names, i, j);
            assert(folded@[j]@ == folded@[i]@);
        }
    }
    r
}

/// Conflicts are symmetric, and names that are distinct once lowercased are
/// never flagged.
pub proof fn lemma_conflicts_symmetric(names: Seq<Seq<char>>)
    ensures
        forall|i: int, j: int| #[trigger] collide(names, i, j) ==> collide(names, j, i),
        forall|i: int, j: int| collide(names, i, j) ==> in_conflict(names, i) && in_conflict(names, j),
        (forall|i: int, j: int| 0 <= i < names.len() && 0 <= j < names.len() && i != j
            ==> lower_of(names[i]) != lower_of(names[j]))
            ==> forall|i: int| 0 <= i < names.len() ==> !in_conflict(names, i),
{
    assert forall|i: int, j: int| collide(names, i, j) implies in_conflict(names, i) && in_conflict(names, j) by {
        assert(collide(names, j, i));
    }
}

// ---------------------------------------------------------------- replace

/// Whether `p` occurs in `s`.
pub open spec fn occurs_in(s: Seq<char>, p: Seq<char>) -> bool {
    exists|i: int| 0 <= i && i + p.len() <= s.len() && #[trigger] s.subrange(i, i + p.len()) == p
}

/// `s` with every non-overlapping occurrence of `p` replaced by `r`, scanning
/// from the left; an empty `p` matches before every character and at the end.
pub open spec fn replace_all(s: Seq<char>, p: Seq<char>, r: Seq<char>) -> Seq<char>
    decreases s.len(),
{
    if p.len() == 0 {
        if s.len() == 0 {
            r
        } else {
            r + seq![s[0]] + replace_all(s.skip(1), p, r)
        }
    } else if s.len() < p.len() {
        s
    } else if s.take(p.len() as int) == p {
        r + replace_all(s.skip(p.len() as int), p, r)
    } else {
        seq![s[0]] + replace_all(s.skip(1), p, r)
    }
}

/// The first position at or after `i` where `p` occurs in `s`, or -1.
pub open spec fn first_match_from(s: Seq<char>, p: Seq<char>, i: nat) -> int
    decreases s.len() + 1 - i,
{
    if i + p.len() > s.len() {
        -1
    } else if s.subrange(i as int, (i + p.len()) as int) == p {
        i as int
    } else {
        first_match_from(s, p, i + 1)
    }
}

/// `s` with the span where `folded_p` first occurs in `folded_s` replaced by `r`
/// (`s` itself when it does not occur).
pub open spec fn replace_first_folded_spec(
    s: Seq<char>,
    folded_s: Seq<char>,
    folded_p: Seq<char>,
    r: Seq<char>,
) -> Seq<char> {
    let i = first_match_from(folded_s, folded_p, 0);
    if i < 0 {
        s
    } else {
        s.take(i) + r + s.skip(i + folded_p.len())
    }
}

/// `first_match_from` finds an occurrence, and none before it.
pub proof fn lemma_first_match(s: Seq<char>, p: Seq<char>, i: nat)
    ensures
        first_match_from(s, p, i) == -1 || (i <= first_match_from(s, p, i)
            && first_match_from(s, p, i) + p.len() <= s.len()
            && s.subrange(first_match_from(s, p, i), first_match_from(s, p, i) + p.len()) == p),
        forall|k: int| i <= k && k + p.len() <= s.len()
            && (first_match_from(s, p, i) == -1 || k < first_match_from(s, p, i))
            ==> #[trigger] s.subrange(k, k + p.len()) != p,
    decreases s.len() + 1 - i,
{
    if i + p.len() <= s.len() && s.subrange(i as int, (i + p.len()) as int) != p {
        lemma_first_match(s, p, i + 1);
    }
}

/// A text without the pattern comes out of `replace_all` unchanged.
pub proof fn lemma_replace_all_absent(s: Seq<char>, p: Seq<char>, r: Seq<char>)
    requires
        !occurs_in(s, p),
    ensures
        replace_all(s, p, r) == s,
    decreases s.len(),
{
    let z: int = 0;
    if p.len() == 0 {
        assert(s.subrange(z, z + p.len()) =~= p);
    } else if s.len() >= p.len() {
        assert(s.subrange(z, z + p.len()) == s.take(p.len() as int));
        let t = s.skip(1);
        assert forall|i: int| 0 <= i && i + p.len() <= t.len() implies #[trigger] t.subrange(i, i + p.len()) != p by {
            assert(t.subrange(i, i + p.len()) =~= s.subrange(i + 1, i + 1 + p.len()));
        }
        lemma_replace_all_absent(t, p, r);
        assert(seq![s[0]] + t =~= s);
    }
}

fn matches_at(s: &Vec<char>, p: &Vec<char>, i: usize) -> (r: bool)
    requires
        i + p.len() <= s.len(),
    ensures
        r == (s@.subrange(i as int, i + p.len()) == p@),
{
    let mut k: usize = 0;
    while k < p.len()
        invariant
            i + p.len() <= s.len(),
            k <= p.len(),
            forall|m: int| 0 <= m < k ==> s@[i + m] == p@[m],
        decreases p.len() - k,
    {
        if s[i + k] != p[k] {
            assert(s@.subrange(i as int, i + p.len())[k as int] != p@[k as int]);
            return false;
        }
        k = k + 1;
    }
    assert(s@.subrange(i as int, i + p.len()) =~= p@);
    true
}

/// Every non-overlapping occurrence of `p` in `s` replaced by `r`.
pub fn replace_all_chars(s: &Vec<char>, p: &Vec<char>, r: &Vec<char>) -> (out: Vec<char>)
    ensures
        out@ == replace_all(s@, p@, r@),
{
    let mut out: Vec<char> = Vec::new();
    let mut i: usize = 0;
    assert(s@.skip(0) =~= s@);
    while i < s.len()
        invariant
            i <= s.len(),
            out@ + replace_all(s@.skip(i as int), p@, r@) == replace_all(s@, p@, r@),
        decreases s.len() - i,
    {
        let ghost t = s@.skip(i as int);
        if p.len() == 0 {
            assert(t.skip(1) =~= s@.skip(i + 1));
            assert(t[0] == s@[i as int]);
            push_all(&mut out, r);
            out.push(s[i]);
            i = i + 1;
            assert(out@ + replace_all(s@.skip(i as int), p@, r@) =~= replace_all(s@, p@, r@));
        } else if s.len() - i < p.len() {
            assert(t.skip(1) =~= s@.skip(i + 1));
            proof {
                assert(!occurs_in(t.skip(1), p@));
                lemma_replace_all_absent(t.skip(1), p@, r@);
                assert(seq![t[0]] + t.skip(1) =~= t);
            }
            out.push(s[i]);
            i = i + 1;
            assert(out@ + replace_all(s@.skip(i as int), p@, r@) =~= replace_all(s@, p@, r@));
        } else if matches_at(s, p, i) {
            assert(t.take(p.len() as int) =~= s@.subrange(i as int, i + p.len()));
            assert(t.skip(p.len() as int) =~= s@.skip(i + p.len()));
            push_all(&mut out, r);
            i = i + p.len();
            assert(out@ + replace_all(s@.skip(i as int), p@, r@) =~= replace_all(s@, p@, r@));
        } else {
            assert(t.take(p.len() as int) =~= s@.subrange(i as int, i + p.len()));
            assert(t.skip(1) =~= s@.skip(i + 1));
            out.push(s[i]);
            i = i + 1;
            assert(out@ + replace_all(s@.skip(i as int), p@, r@) =~= replace_all(s@, p@, r@));
        }
    }
    if p.len() == 0 {
        push_all(&mut out, r);
    }
    assert(out@ =~= replace_all(s@, p@, r@));
    out
}

/// `s` with the span at the first occurrence of `folded_p` in `folded_s`
/// replaced by `r`; `folded_s` is `s` under some per-character folding.
pub fn replace_first_folded(
    s: &Vec<char>,
    folded_s: &Vec<char>,
    folded_p: &Vec<char>,
    r: &Vec<char>,
) -> (out: Vec<char>)
    requires
        folded_s.len() == s.len(),
    ensures
        out@ == replace_first_folded_spec(s@, folded_s@, folded_p@, r@),
{
    let mut i: usize = 0;
    while i <= folded_s.len()
        invariant
            folded_s.len() == s.len(),
            i <= folded_s.len() + 1,
            first_match_from(folded_s@, folded_p@, 0) == first_match_from(folded_s@, folded_p@, i as nat),
        ensures
            i + folded_p.len() > folded_s.len(),
            first_match_from(folded_s@, folded_p@, 0) == first_match_from(folded_s@, folded_p@, i as nat),
        decreases folded_s.len() + 1 - i,
    {
        if folded_s.len() - i < folded_p.len() {
            break;
        }
        if matches_at(folded_s, folded_p, i) {
            let mut out = copy_range(s, 0, i);
            push_all(&mut out, r);
            let rest = copy_range(s, i + folded_p.len(), s.len());
            push_all(&mut out, &rest);
            assert(out@ =~= replace_first_folded_spec(s@, folded_s@, folded_p@, r@));
            return out;
        }
        if i == folded_s.len() {
            assert(folded_s@.subrange(i as int, i as int) =~= folded_p@);
        }
        i = i + 1;
    }
    assert(first_match_from(folded_s@, folded_p@, i as nat) == -1);
    assert(s@.subrange(0, s.len() as int) =~= s@);
    copy_range(s, 0, s.len())
}

// ---------------------------------------------------------------- case

/// Title case at position `i`: the first letter of each alphabetic run is
/// uppercased, the other letters lowercased.
pub open spec fn title_char(s: Seq<char>, i: int) -> char {
    if alphabetic(s[i]) {
        if i == 0 || !alphabetic(s[i - 1]) {
            upper_first(s[i])
        } else {
            lower_first(s[i])
        }
    } else {
        s[i]
    }
}

/// The stem in title case.
pub open spec fn title_case(s: Seq<char>) -> Seq<char> {
    Seq::new(s.len(), |i: int| title_char(s, i))
}

/// Snake case of one character: blanks and `-` become `_`, the rest is lowercased.
pub open spec fn snake_char(c: char) -> char {
    if white_space(c) || c == '-' { '_' } else { lower_first(c) }
}

/// Kebab case of one character: blanks and `_` become `-`, the rest is lowercased.
pub open spec fn kebab_char(c: char) -> char {
    if white_space(c) || c == '_' { '-' } else { lower_first(c) }
}

/// The stem in snake case.
pub open spec fn snake_case(s: Seq<char>) -> Seq<char> {
    s.map_values(|c: char| snake_char(c))
}

/// The stem in kebab case.
pub open spec fn kebab_case(s: Seq<char>) -> Seq<char> {
    s.map_values(|c: char| kebab_char(c))
}

fn title_chars(s: &Vec<char>) -> (r: Vec<char>)
    ensures
        r@ == title_case(s@),
{
    let mut r: Vec<char> = Vec::new();
    let mut capitalize_next = true;
    let mut i: usize = 0;
    while i < s.len()
        invariant
            i <= s.len(),
            r.len() == i,
            capitalize_next == (i == 0 || !alphabetic(s@[i - 1])),
            forall|k: int| 0 <= k < i ==> r@[k] == title_char(s@, k),
        decreases s.len() - i,
    {
        let c = s[i];
        if is_alphabetic(c) {
            if capitalize_next {
                r.push(char_upper(c));
                capitalize_next = false;
            } else {
                r.push(char_lower(c));
            }
        } else {
            r.push(c);
            capitalize_next = true;
        }
        i = i + 1;
    }
    assert(r@ =~= title_case(s@));
    r
}

fn separated_chars(s: &Vec<char>, snake: bool) -> (r: Vec<char>)
    ensures
        r@ == if snake { snake_case(s@) } else { kebab_case(s@) },
{
    let mut r: Vec<char> = Vec::new();
    let mut i: usize = 0;
    while i < s.len()
        invariant
            i <= s.len(),
            r.len() == i,
            forall|k: int| 0 <= k < i ==> r@[k] == if snake { snake_char(s@[k]) } else { kebab_char(s@[k]) },
        decreases s.len() - i,
    {
        let c = s[i];
        let sep = if snake { c == '-' } else { c == '_' };
        if is_white_space(c) || sep {
            r.push(if snake { '_' } else { '-' });
        } else {
            r.push(char_lower(c));
        }
        i = i + 1;
    }
    if snake {
        assert(r@ =~= snake_case(s@));
    } else {
        assert(r@ =~= kebab_case(s@));
    }
    r
}

// ---------------------------------------------------------------- slice

/// A slice bound resolved against a stem of `len` characters: negative values
/// count from the end, and the result is clamped to `[0, len]`.
pub open spec fn resolve_bound(b: int, len: int) -> int {
    if b < 0 {
        if len + b < 0 { 0 } else { len + b }
    } else if b < len {
        b
    } else {
        len
    }
}

fn resolve_bound_exec(b: isize, len: usize) -> (r: usize)
    ensures
        r as int == resolve_bound(b as int, len as int),
{
    if b < 0 {
        let back: usize = ((-(b as i128)) as u128) as usize;
        if back >= len { 0 } else { len - back }
    } else if (b as usize) < len {
        b as usize
    } else {
        len
    }
}

// ---------------------------------------------------------------- messages

pub open spec fn msg_empty_find() -> Seq<char> { "find text must not be empty"@ }
pub open spec fn msg_negative_start() -> Seq<char> { "start number must not be negative"@ }
pub open spec fn msg_step() -> Seq<char> { "step must be greater than zero"@ }
pub open spec fn msg_width() -> Seq<char> { "width must be between 1 and 10"@ }
pub open spec fn msg_start_range() -> Seq<char> { "start position is out of range"@ }
pub open spec fn msg_end_range() -> Seq<char> { "end position is out of range"@ }
pub open spec fn msg_end_order() -> Seq<char> { "end position must be after start position"@ }
pub open spec fn msg_mode() -> Seq<char> { "unsupported case mode"@ }
pub open spec fn msg_no_extension() -> Seq<char> { "a new extension is required unless the original one is kept"@ }
pub open spec fn msg_extension_chars() -> Seq<char> { "the extension may only hold letters and digits"@ }
pub open spec fn msg_slice_order() -> Seq<char> { "slice start lies after its end"@ }
pub open spec fn msg_unknown_mode() -> Seq<char> { "unsupported case mode: "@ }

/// One of the five case modes.
pub open spec fn known_mode(mode: Seq<char>) -> bool {
    mode == "upper"@ || mode == "lower"@ || mode == "title"@ || mode == "snake"@ || mode == "kebab"@
}

/// Whether every character of `s` is alphanumeric.
pub open spec fn all_alphanumeric(s: Seq<char>) -> bool {
    forall|i: int| 0 <= i < s.len() ==> alphanumeric(#[trigger] s[i])
}

/// Whether an exec result carries exactly the spec result.
pub open spec fn same_result(r: Result<String, String>, s: Result<Seq<char>, Seq<char>>) -> bool {
    match r {
        Ok(a) => s == Ok::<Seq<char>, Seq<char>>(a@),
        Err(e) => s == Err::<Seq<char>, Seq<char>>(e@),
    }
}

impl RenameRule {
    /// The rule's parameters are within range.
    pub open spec fn valid(&self) -> bool {
        self.validation_error() is None
    }

    /// The first failed parameter check, if any.
    pub open spec fn validation_error(&self) -> Option<Seq<char>> {
        match self {
            RenameRule::Replace { find, .. } => {
                if find@.len() == 0 { Some(msg_empty_find()) } else { None }
            },
            RenameRule::Sequence { start, step, width, .. } => {
                if *start < 0 {
                    Some(msg_negative_start())
                } else if *step <= 0 {
                    Some(msg_step())
                } else if *width == 0 || *width > 10 {
                    Some(msg_width())
                } else {
                    None
                }
            },
            RenameRule::Slice { start, end, .. } => {
                if *start < -255 || *start > 255 {
                    Some(msg_start_range())
                } else {
                    match end {
                        Some(e) => {
                            if *e < -255 || *e > 255 {
                                Some(msg_end_range())
                            } else if *e != -1 && *e <= *start {
                                Some(msg_end_order())
                            } else {
                                None
                            }
                        },
                        None => None,
                    }
                }
            },
            RenameRule::Case { mode } => {
                if known_mode(mode@) { None } else { Some(msg_mode()) }
            },
            RenameRule::Extension { new_extension, keep_original } => {
                if *keep_original {
                    None
                } else {
                    match new_extension {
                        Some(e) => {
                            if e@.len() == 0 {
                                Some(msg_no_extension())
                            } else if !all_alphanumeric(e@) {
                                Some(msg_extension_chars())
                            } else {
                                None
                            }
                        },
                        None => Some(msg_no_extension()),
                    }
                }
            },
        }
    }

    /// What the rule makes of `name` at position `index` of a batch.
    pub open spec fn apply_spec(&self, name: Seq<char>, index: int) -> Result<Seq<char>, Seq<char>> {
        match self {
            RenameRule::Replace { find, replace, regex, case_sensitive } => {
                replace_spec(name, find@, replace@, *case_sensitive)
            },
            RenameRule::Sequence { start, step, width, .. } => {
                Ok(sequence_spec(name, *start as int + index * *step as int, *width as nat))
            },
            RenameRule::Slice { start, end, replacement } => {
                slice_spec(name, *start as int, match end { Some(e) => Some(*e as int), None => None }, replacement@)
            },
            RenameRule::Case { mode } => case_spec(name, mode@),
            RenameRule::Extension { new_extension, keep_original } => {
                Ok(extension_spec(name, match new_extension { Some(e) => Some(e@), None => None }, *keep_original))
            },
        }
    }
}

/// `Replace`, with `find` read literally whatever the `regex` flag says:
/// case-sensitive, every occurrence is replaced; case-insensitive, only the
/// first span whose characters match `find` under per-character lowercase
/// folding is replaced, and the rest of the name keeps its casing.
pub open spec fn replace_spec(
    name: Seq<char>,
    find: Seq<char>,
    replace: Seq<char>,
    case_sensitive: bool,
) -> Result<Seq<char>, Seq<char>> {
    if case_sensitive {
        Ok(replace_all(name, find, replace))
    } else {
        Ok(replace_first_folded_spec(name, fold_chars(name), fold_chars(find), replace))
    }
}

/// `Sequence`: `{stem}_{value}{ext}`, the value zero-padded to `width`.
pub open spec fn sequence_spec(name: Seq<char>, value: int, width: nat) -> Seq<char> {
    stem_of(name) + seq!['_'] + formatted(value, width) + ext_of(name)
}

/// `Slice`: the resolved character range `[a, b)` of the stem replaced; fails when `a > b`.
pub open spec fn slice_spec(
    name: Seq<char>,
    start: int,
    end: Option<int>,
    replacement: Seq<char>,
) -> Result<Seq<char>, Seq<char>> {
    let stem = stem_of(name);
    let a = resolve_bound(start, stem.len() as int);
    let b = match end {
        Some(e) => resolve_bound(e, stem.len() as int),
        None => stem.len() as int,
    };
    if a > b {
        Err(msg_slice_order())
    } else {
        Ok(stem.take(a) + replacement + stem.skip(b) + ext_of(name))
    }
}

/// `Case`: the stem transformed by `mode`, the extension kept as it is.
pub open spec fn case_spec(name: Seq<char>, mode: Seq<char>) -> Result<Seq<char>, Seq<char>> {
    let stem = stem_of(name);
    let ext = ext_of(name);
    if mode == "upper"@ {
        Ok(upper_of(stem) + ext)
    } else if mode == "lower"@ {
        Ok(lower_of(stem) + ext)
    } else if mode == "title"@ {
        Ok(title_case(stem) + ext)
    } else if mode == "snake"@ {
        Ok(snake_case(stem) + ext)
    } else if mode == "kebab"@ {
        Ok(kebab_case(stem) + ext)
    } else {
        Err(msg_unknown_mode() + mode)
    }
}

/// `Extension`: kept, replaced by a non-empty new one, or stripped.
pub open spec fn extension_spec(name: Seq<char>, new_extension: Option<Seq<char>>, keep_original: bool) -> Seq<char> {
    if keep_original {
        name
    } else {
        match new_extension {
            Some(e) => if e.len() > 0 { stem_of(name) + seq!['.'] + e } else { stem_of(name) },
            None => stem_of(name),
        }
    }
}

fn all_alnum(v: &Vec<char>) -> (r: bool)
    ensures
        r == all_alphanumeric(v@),
{
    let mut i: usize = 0;
    while i < v.len()
        invariant
            i <= v.len(),
            forall|k: int| 0 <= k < i ==> alphanumeric(#[trigger] v@[k]),
        decreases v.len() - i,
    {
        if !is_alphanumeric(v[i]) {
            return false;
        }
        i = i + 1;
    }
    true
}

impl RenameRule {
    /// Checks the rule's parameters once, before any file is transformed.
    pub fn validate(&self) -> (r: Result<(), String>)
        ensures
            r is Ok <==> self.valid(),
            r matches Err(e) ==> Some(e@) == self.validation_error(),
    {
        match self {
            RenameRule::Replace { find, .. } => {
                if find.as_str().is_empty() {
                    return Err(String::from_str("find text must not be empty"));
                }
                Ok(())
            },
            RenameRule::Sequence { start, step, width, .. } => {
                if *start < 0 {
                    return Err(String::from_str("start number must not be negative"));
                }
                if *step <= 0 {
                    return Err(String::from_str("step must be greater than zero"));
                }
                if *width == 0 || *width > 10 {
                    return Err(String::from_str("width must be between 1 and 10"));
                }
                Ok(())
            },
            RenameRule::Slice { start, end, .. } => {
                if *start < -255 || *start > 255 {
                    return Err(String::from_str("start position is out of range"));
                }
                if let Some(end_pos) = end {
                    if *end_pos < -255 || *end_pos > 255 {
                        return Err(String::from_str("end position is out of range"));
                    }
                    if *end_pos != -1 && *end_pos <= *start {
                        return Err(String::from_str("end position must be after start position"));
                    }
                }
                Ok(())
            },
            RenameRule::Case { mode } => {
                let m = mode.as_str();
                if text_is(m, "upper") || text_is(m, "lower") || text_is(m, "title")
                    || text_is(m, "snake") || text_is(m, "kebab") {
                    Ok(())
                } else {
                    Err(String::from_str("unsupported case mode"))
                }
            },
            RenameRule::Extension { new_extension, keep_original } => {
                if *keep_original {
                    return Ok(());
                }
                match new_extension {
                    None => Err(String::from_str("a new extension is required unless the original one is kept")),
                    Some(ext) => {
                        let v = chars_of(ext.as_str());
                        if v.len() == 0 {
                            return Err(String::from_str("a new extension is required unless the original one is kept"));
                        }
                        if !all_alnum(&v) {
                            return Err(String::from_str("the extension may only hold letters and digits"));
                        }
                        Ok(())
                    },
                }
            },
        }
    }

    /// Applies the rule to one file name at position `index` of the batch.
    pub fn apply_to_filename(&self, filename: &str, index: usize) -> (r: Result<String, String>)
        ensures
            same_result(r, self.apply_spec(filename@, index as int)),
    {
        match self {
            RenameRule::Replace { find, replace, regex, case_sensitive } => {
                self.apply_replace(filename, find.as_str(), replace.as_str(), *regex, *case_sensitive)
            },
            RenameRule::Sequence { start, step, width, order: _ } => {
                self.apply_sequence(filename, *start, *step, *width, index)
            },
            RenameRule::Slice { start, end, replacement } => {
                self.apply_slice(filename, *start, *end, replacement.as_str())
            },
            RenameRule::Case { mode } => self.apply_case(filename, mode.as_str()),
            RenameRule::Extension { new_extension, keep_original } => {
                match new_extension {
                    Some(e) => self.apply_extension(filename, Some(e.as_str()), *keep_original),
                    None => self.apply_extension(filename, None, *keep_original),
                }
            },
        }
    }

    fn apply_replace(
        &self,
        filename: &str,
        find: &str,
        replace: &str,
        _regex: bool,
        case_sensitive: bool,
    ) -> (r: Result<String, String>)
        ensures
            same_result(r, replace_spec(filename@, find@, replace@, case_sensitive)),
    {
        let rep = chars_of(replace);
        if case_sensitive {
            let out = replace_all_chars(&chars_of(filename), &chars_of(find), &rep);
            Ok(string_of(&out))
        } else {
            let s = chars_of(filename);
            let p = chars_of(find);
            let out = replace_first_folded(&s, &fold(&s), &fold(&p), &rep);
            Ok(string_of(&out))
        }
    }

    fn apply_sequence(
        &self,
        filename: &str,
        start: i64,
        step: i64,
        width: usize,
        index: usize,
    ) -> (r: Result<String, String>)
        ensures
            same_result(r, Ok(sequence_spec(filename@, start as int + index as int * step as int, width as nat))),
    {
        let ghost i = index as int;
        let ghost k = step as int;
        proof {
            if k >= 0 {
                assert(i * k <= 0xffff_ffff_ffff_ffff * k) by (nonlinear_arith)
                    requires
                        0 <= i <= 0xffff_ffff_ffff_ffff,
                        k >= 0,
                ;
                assert(i * k >= 0) by (nonlinear_arith)
                    requires
                        0 <= i,
                        k >= 0,
                ;
            } else {
                assert(i * k >= 0xffff_ffff_ffff_ffff * k) by (nonlinear_arith)
                    requires
                        0 <= i <= 0xffff_ffff_ffff_ffff,
                        k < 0,
                ;
                assert(i * k <= 0) by (nonlinear_arith)
                    requires
                        0 <= i,
                        k < 0,
                ;
            }
        }
        let value: i128 = start as i128 + (index as i128) * (step as i128);
        let digits = format_padded(value, width);
        let v = chars_of(filename);
        let (stem, ext) = split_chars(&v);
        let mut out = stem;
        out.push('_');
        push_all(&mut out, &digits);
        push_all(&mut out, &ext);
        assert(out@ =~= sequence_spec(filename@, start as int + index as int * step as int, width as nat));
        Ok(string_of(&out))
    }

    fn apply_slice(
        &self,
        filename: &str,
        start: isize,
        end: Option<isize>,
        replacement: &str,
    ) -> (r: Result<String, String>)
        ensures
            same_result(r, slice_spec(filename@, start as int,
                match end { Some(e) => Some(e as int), None => None }, replacement@)),
    {
        let v = chars_of(filename);
        let (stem, ext) = split_chars(&v);
        let len = stem.len();
        let a = resolve_bound_exec(start, len);
        let b = match end {
            Some(e) => resolve_bound_exec(e, len),
            None => len,
        };
        if a > b {
            return Err(String::from_str("slice start lies after its end"));
        }
        let mut out = copy_range(&stem, 0, a);
        push_all(&mut out, &chars_of(replacement));
        let tail = copy_range(&stem, b, len);
        push_all(&mut out, &tail);
        push_all(&mut out, &ext);
        assert(stem@.subrange(0, a as int) =~= stem@.take(a as int));
        assert(stem@.subrange(b as int, len as int) =~= stem@.skip(b as int));
        Ok(string_of(&out))
    }

    fn apply_case(&self, filename: &str, mode: &str) -> (r: Result<String, String>)
        ensures
            same_result(r, case_spec(filename@, mode@)),
    {
        let v = chars_of(filename);
        let (stem, ext) = split_chars(&v);
        let mut out = if text_is(mode, "upper") {
            chars_of(to_upper(string_of(&stem).as_str()).as_str())
        } else if text_is(mode, "lower") {
            chars_of(to_lower(string_of(&stem).as_str()).as_str())
        } else if text_is(mode, "title") {
            title_chars(&stem)
        } else if text_is(mode, "snake") {
            separated_chars(&stem, true)
        } else if text_is(mode, "kebab") {
            separated_chars(&stem, false)
        } else {
            let mut e = String::from_str("unsupported case mode: ");
            e.append(mode);
            return Err(e);
        };
        push_all(&mut out, &ext);
        Ok(string_of(&out))
    }

    fn apply_extension(
        &self,
        filename: &str,
        new_extension: Option<&str>,
        keep_original: bool,
    ) -> (r: Result<String, String>)
        ensures
            same_result(r, Ok(extension_spec(filename@,
                match new_extension { Some(e) => Some(e@), None => None }, keep_original))),
    {
        if keep_original {
            return Ok(String::from_str(filename));
        }
        let v = chars_of(filename);
        let (stem, _ext) = split_chars(&v);
        let mut out = stem;
        if let Some(new_ext) = new_extension {
            let e = chars_of(new_ext);
            if e.len() > 0 {
                out.push('.');
                push_all(&mut out, &e);
                assert(out@ =~= stem_of(filename@) + seq!['.'] + new_ext@);
            }
        }
        Ok(string_of(&out))
    }
}

// ---------------------------------------------------------------- laws

/// A case-sensitive `Replace` leaves every name that lacks `find` unchanged.
pub proof fn lemma_replace_without_match(
    find: String,
    replace: String,
    regex: bool,
    name: Seq<char>,
    index: int,
)
    requires
        !occurs_in(name, find@),
    ensures
        (RenameRule::Replace { find, replace, regex, case_sensitive: true }).apply_spec(name, index)
            == Ok::<Seq<char>, Seq<char>>(name),
{
    lemma_replace_all_absent(name, find@, replace@);
}

/// With a non-negative start and a positive step, a `Sequence` rule gives
/// different names to different positions of a batch, whatever the width.
pub proof fn lemma_sequence_injective(
    start: i64,
    step: i64,
    width: usize,
    order: String,
    name: Seq<char>,
    i: int,
    j: int,
)
    requires
        start >= 0,
        step > 0,
        0 <= i,
        0 <= j,
        i != j,
    ensures
        (RenameRule::Sequence { start, step, width, order }).apply_spec(name, i)
            != (RenameRule::Sequence { start, step, width, order }).apply_spec(name, j),
{
    let k = step as int;
    let vi = start as int + i * k;
    let vj = start as int + j * k;
    assert(i * k >= 0 && j * k >= 0) by (nonlinear_arith)
        requires
            0 <= i,
            0 <= j,
            k > 0,
    ;
    assert(i * k != j * k) by (nonlinear_arith)
        requires
            i != j,
            k > 0,
    ;
    lemma_formatted_injective(vi, vj, width as nat);
    let head = stem_of(name) + seq!['_'];
    let fi = formatted(vi, width as nat);
    let fj = formatted(vj, width as nat);
    let si = sequence_spec(name, vi, width as nat);
    let sj = sequence_spec(name, vj, width as nat);
    if si == sj {
        assert(si =~= head + fi + ext_of(name));
        assert(sj =~= head + fj + ext_of(name));
        assert(si.len() == head.len() + fi.len() + ext_of(name).len());
        assert(sj.len() == head.len() + fj.len() + ext_of(name).len());
        assert(fi.len() == fj.len());
        assert(si.subrange(head.len() as int, (head.len() + fi.len()) as int) =~= fi);
        assert(sj.subrange(head.len() as int, (head.len() + fj.len()) as int) =~= fj);
    }
}

proof fn lemma_last_dot_of_tail(x: Seq<char>, e: Seq<char>)
    requires
        e.len() > 0,
        e[0] == '.',
        forall|k: int| 0 < k < e.len() ==> e[k] != '.',
    ensures
        last_dot(x + e) == x.len(),
    decreases e.len(),
{
    if e.len() > 1 {
        lemma_last_dot_of_tail(x, e.drop_last());
        assert((x + e).drop_last() =~= x + e.drop_last());
    }
}

proof fn lemma_last_dot_none(x: Seq<char>)
    requires
        forall|k: int| 0 <= k < x.len() ==> x[k] != '.',
    ensures
        last_dot(x) == -1,
    decreases x.len(),
{
    if x.len() > 0 {
        lemma_last_dot_none(x.drop_last());
    }
}

/// A `Slice` rule is undone by slicing the inserted replacement back out:
/// applying `Slice { start: a, end: Some(a + |replacement|), replacement: s }`,
/// where `[a, b)` is the range the first rule resolved to and `s` the stem's
/// original characters there, gives back the original name. The name's
/// extension must survive the first rule, which fails only when a name without
/// extension receives a replacement holding a `'.'`.
#[verifier::spinoff_prover]
#[verifier::rlimit(50)]
pub proof fn lemma_slice_round_trip(
    start: isize,
    end: Option<isize>,
    replacement: String,
    restore: String,
    name: Seq<char>,
    i: int,
    j: int,
)
    requires
        ({
            let stem = stem_of(name);
            let a = resolve_bound(start as int, stem.len() as int);
            let b = match end {
                Some(e) => resolve_bound(e as int, stem.len() as int),
                None => stem.len() as int,
            };
            &&& a <= b
            &&& restore@ == stem.subrange(a, b)
            &&& a + replacement@.len() <= isize::MAX
        }),
        ext_of(name).len() > 0 || forall|k: int| 0 <= k < replacement@.len() ==> replacement@[k] != '.',
    ensures
        ({
            let stem = stem_of(name);
            let a = resolve_bound(start as int, stem.len() as int);
            let rule = RenameRule::Slice { start, end, replacement };
            let inverse = RenameRule::Slice {
                start: a as isize,
                end: Some((a + replacement@.len()) as isize),
                replacement: restore,
            };
            &&& rule.apply_spec(name, i) is Ok
            &&& inverse.apply_spec(rule.apply_spec(name, i)->Ok_0, j) == Ok::<Seq<char>, Seq<char>>(name)
        }),
{
    let stem = stem_of(name);
    let ext = ext_of(name);
    let len = stem.len() as int;
    let a = resolve_bound(start as int, len);
    let b = match end {
        Some(e) => resolve_bound(e as int, len),
        None => len,
    };
    let r = replacement@;
    let x = stem.take(a) + r + stem.skip(b);
    let renamed = x + ext;
    lemma_stem_ext(name);
    lemma_last_dot(name);
    if ext.len() > 0 {
        lemma_last_dot_of_tail(x, ext);
        assert(renamed.take(x.len() as int) =~= x);
        assert(renamed.skip(x.len() as int) =~= ext);
    } else {
        assert forall|k: int| 0 <= k < x.len() implies x[k] != '.' by {
            if k < a {
                assert(x[k] == stem[k]);
            } else if k < a + r.len() {
                assert(x[k] == r[k - a]);
            } else {
                assert(x[k] == stem[k - a - r.len() + b]);
            }
        }
        lemma_last_dot_none(x);
        assert(renamed =~= x);
    }
    assert(stem_of(renamed) == x);
    assert(ext_of(renamed) == ext);
    let a2 = resolve_bound(a, x.len() as int);
    let b2 = resolve_bound(a + r.len(), x.len() as int);
    assert(a2 == a);
    assert(b2 == a + r.len());
    assert(x.take(a) + restore@ + x.skip(a + r.len()) + ext =~= name);
}

} // verus!
