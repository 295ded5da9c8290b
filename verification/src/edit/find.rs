//! Parsing of tagged presenter cells.
//!
//! A presenter cell may carry a tag prefix followed by
//! `[<][name][=[=]group]`: `<` marks the presenter as always grouped, `=`
//! names the group, and `==` marks the group as always shown.  This module
//! reads the part after the tag into its pieces.

use vstd::prelude::*;
use vstd::string::*;

verus! {

/// Whether `c` has the Unicode `White_Space` property, which std's
/// `char::is_whitespace` decides: tab through carriage return, space, next
/// line, no-break space, Ogham space mark, en quad through hair space, line
/// and paragraph separators, narrow no-break space, medium mathematical
/// space and ideographic space.
pub open spec fn white_space(c: char) -> bool {
    let u = c as u32;
    ||| 0x9 <= u <= 0xD
    ||| u == 0x20
    ||| u == 0x85
    ||| u == 0xA0
    ||| u == 0x1680
    ||| 0x2000 <= u <= 0x200A
    ||| u == 0x2028
    ||| u == 0x2029
    ||| u == 0x202F
    ||| u == 0x205F
    ||| u == 0x3000
}

fn is_whitespace(c: char) -> (r: bool)
    ensures
        r == white_space(c),
{
    let u = c as u32;
    (0x9 <= u && u <= 0xD) || u == 0x20 || u == 0x85 || u == 0xA0 || u == 0x1680 || (0x2000 <= u
        && u <= 0x200A) || u == 0x2028 || u == 0x2029 || u == 0x202F || u == 0x205F || u == 0x3000
}

/// `s` without its leading white space.
pub open spec fn trim_start(s: Seq<char>) -> Seq<char>
    decreases s.len(),
{
    if s.len() > 0 && white_space(s[0]) {
        trim_start(s.drop_first())
    } else {
        s
    }
}

/// `s` without its trailing white space.
pub open spec fn trim_end(s: Seq<char>) -> Seq<char>
    decreases s.len(),
{
    if s.len() > 0 && white_space(s.last()) {
        trim_end(s.drop_last())
    } else {
        s
    }
}

/// `s` without leading and trailing white space.
pub open spec fn trim(s: Seq<char>) -> Seq<char> {
    trim_end(trim_start(s))
}

/// The ASCII lowercase code of a character (other characters unchanged).
pub open spec fn ascii_lower(c: char) -> int {
    if 65 <= (c as u32) <= 90 {
        (c as u32) + 32
    } else {
        c as u32 as int
    }
}

/// `a` and `b` are equal ignoring ASCII case.
pub open spec fn eq_ignore_ascii_case(a: Seq<char>, b: Seq<char>) -> bool {
    a.len() == b.len() && forall|i: int| 0 <= i < a.len() ==> ascii_lower(a[i]) == ascii_lower(b[i])
}

proof fn lemma_trim_start_skip(s: Seq<char>, i: int)
    requires
        0 <= i <= s.len(),
        forall|j: int| 0 <= j < i ==> white_space(s[j]),
        i == s.len() || !white_space(s[i]),
    ensures
        trim_start(s) == s.subrange(i, s.len() as int),
    decreases i,
{
    if i == 0 {
        assert(s.subrange(0, s.len() as int) =~= s);
    } else {
        let t = s.drop_first();
        assert forall|j: int| 0 <= j < i - 1 implies white_space(t[j]) by {
            assert(t[j] == s[j + 1]);
        }
        if i - 1 < t.len() {
            assert(t[i - 1] == s[i]);
        }
        lemma_trim_start_skip(t, i - 1);
        assert(t.subrange(i - 1, t.len() as int) =~= s.subrange(i, s.len() as int));
    }
}

proof fn lemma_trim_end_keep(s: Seq<char>, k: int)
    requires
        0 <= k <= s.len(),
        forall|j: int| k <= j < s.len() ==> white_space(s[j]),
        k == 0 || !white_space(s[k - 1]),
    ensures
        trim_end(s) == s.subrange(0, k),
    decreases s.len() - k,
{
    if k == s.len() {
        assert(s.subrange(0, k) =~= s);
    } else {
        let t = s.drop_last();
        assert forall|j: int| k <= j < t.len() implies white_space(t[j]) by {
            assert(t[j] == s[j]);
        }
        if k > 0 {
            assert(t[k - 1] == s[k - 1]);
        }
        lemma_trim_end_keep(t, k);
        assert(t.subrange(0, k) =~= s.subrange(0, k));
    }
}

fn leading_space(s: &str) -> (i: usize)
    ensures
        i <= s@.len(),
        forall|j: int| 0 <= j < i ==> white_space(s@[j]),
        i == s@.len() || !white_space(s@[i as int]),
{
    let n = s.unicode_len();
    let mut i: usize = 0;
    while i < n
        invariant
            n == s@.len(),
            i <= n,
            forall|j: int| 0 <= j < i ==> white_space(s@[j]),
        decreases n - i,
    {
        if !is_whitespace(s.get_char(i)) {
            return i;
        }
        i = i + 1;
    }
    i
}

fn content_end(s: &str, start: usize) -> (k: usize)
    requires
        start <= s@.len(),
    ensures
        start <= k <= s@.len(),
        forall|j: int| k <= j < s@.len() ==> white_space(s@[j]),
        k == start || !white_space(s@[k - 1]),
{
    let mut k: usize = s.unicode_len();
    while k > start
        invariant
            start <= k <= s@.len(),
            forall|j: int| k <= j < s@.len() ==> white_space(s@[j]),
        decreases k,
    {
        if !is_whitespace(s.get_char(k - 1)) {
            return k;
        }
        k = k - 1;
    }
    k
}

/// Remove leading and trailing white space (`str::trim`).
pub fn trim_str(s: &str) -> (r: &str)
    ensures
        r@ == trim(s@),
{
    let i = leading_space(s);
    let k = content_end(s, i);
    proof {
        lemma_trim_start_skip(s@, i as int);
        let t = s@.subrange(i as int, s@.len() as int);
        assert forall|j: int| k - i <= j < t.len() implies white_space(t[j]) by {
            assert(t[j] == s@[j + i]);
        }
        if k > i {
            assert(t[k - i - 1] == s@[k - 1]);
        }
        lemma_trim_end_keep(t, k - i);
        assert(t.subrange(0, k - i) =~= s@.subrange(i as int, k as int));
    }
    s.substring_char(i, k)
}

/// Compare two strings ignoring ASCII case (`str::eq_ignore_ascii_case`).
pub fn str_eq_ignore_ascii_case(a: &str, b: &str) -> (r: bool)
    ensures
        r == eq_ignore_ascii_case(a@, b@),
{
    let n = a.unicode_len();
    if n != b.unicode_len() {
        return false;
    }
    let mut i: usize = 0;
    while i < n
        invariant
            n == a@.len(),
            n == b@.len(),
            i <= n,
            forall|j: int| 0 <= j < i ==> ascii_lower(a@[j]) == ascii_lower(b@[j]),
        decreases n - i,
    {
        let ca = a.get_char(i) as u32;
        let cb = b.get_char(i) as u32;
        let la = if 65 <= ca && ca <= 90 {
            ca + 32
        } else {
            ca
        };
        let lb = if 65 <= cb && cb <= 90 {
            cb + 32
        } else {
            cb
        };
        if la != lb {
            return false;
        }
        i = i + 1;
    }
    true
}

/// `i` is the position of the first `'='` in `s`.
pub open spec fn first_equals(s: Seq<char>, i: int) -> bool {
    0 <= i < s.len() && s[i] == '=' && forall|j: int| 0 <= j < i ==> s[j] != '='
}

/// `s` starts with the character `c`.
pub open spec fn starts_with(s: Seq<char>, c: char) -> bool {
    s.len() > 0 && s[0] == c
}

/// An empty text stands for no value.
pub open spec fn non_empty(s: Seq<char>) -> Option<Seq<char>> {
    if s.len() == 0 {
        None
    } else {
        Some(s)
    }
}

/// The name part and the group part of a tagged cell: split at the first
/// `'='`, both sides trimmed, an empty group meaning none.
pub open spec fn split_name_group(rest: Seq<char>) -> (Seq<char>, Option<Seq<char>>) {
    if exists|i: int| first_equals(rest, i) {
        let i = choose|i: int| first_equals(rest, i);
        (trim(rest.subrange(0, i)), non_empty(trim(rest.subrange(i + 1, rest.len() as int))))
    } else {
        (rest, None)
    }
}

/// What a tagged cell says: presenter name, group, always-grouped flag and
/// always-shown flag; `None` for an empty cell or the column marker `Other`.
pub open spec fn tagged_view(rest: Seq<char>) -> Option<(Seq<char>, Option<Seq<char>>, bool, bool)> {
    if rest.len() == 0 || eq_ignore_ascii_case(rest, "other"@) {
        None
    } else {
        let parts = split_name_group(rest);
        let name_raw = parts.0;
        let group_raw = parts.1;
        let grouped = starts_with(name_raw, '<');
        let name = if grouped {
            trim(name_raw.drop_first())
        } else {
            name_raw
        };
        let shown = group_raw matches Some(g) && starts_with(g, '=');
        let group = if shown {
            non_empty(trim(group_raw->0.drop_first()))
        } else {
            group_raw
        };
        Some((name, group, grouped, shown))
    }
}

/// The pieces of a tagged presenter cell.
#[derive(Debug, Clone)]
pub struct TaggedPresenter {
    /// The individual presenter's name; may be empty when only a group is
    /// named.
    pub name: String,
    /// The group the presenter belongs to, if any.
    pub group: Option<String>,
    /// `<` prefix: the presenter is always shown with the group.
    pub always_grouped: bool,
    /// `==` before the group: the group is always shown as a group.
    pub always_shown: bool,
}

/// The view of an optional string.
pub open spec fn opt_view(o: Option<String>) -> Option<Seq<char>> {
    match o {
        Some(s) => Some(s@),
        None => None,
    }
}

fn find_equals(s: &str) -> (r: Option<usize>)
    ensures
        match r {
            Some(i) => first_equals(s@, i as int),
            None => forall|j: int| 0 <= j < s@.len() ==> s@[j] != '=',
        },
{
    let n = s.unicode_len();
    let mut i: usize = 0;
    while i < n
        invariant
            n == s@.len(),
            i <= n,
            forall|j: int| 0 <= j < i ==> s@[j] != '=',
        decreases n - i,
    {
        if s.get_char(i) == '=' {
            return Some(i);
        }
        i = i + 1;
    }
    None
}

fn non_empty_string(s: &str) -> (r: Option<String>)
    ensures
        opt_view(r) == non_empty(s@),
{
    if s.unicode_len() == 0 {
        None
    } else {
        Some(String::from_str(s))
    }
}

/// Read the part of a presenter cell after its tag:
/// `[<][name][=[=]group]`.
///
/// Returns `None` for an empty text or for `Other` (any case), which marks a
/// column type rather than a presenter.
pub fn parse_tagged_presenter(rest: &str) -> (r: Option<TaggedPresenter>)
    ensures
        match r {
            None => tagged_view(rest@) is None,
            Some(t) => tagged_view(rest@) == Some(
                (t.name@, opt_view(t.group), t.always_grouped, t.always_shown),
            ),
        },
{
    proof {
        reveal_strlit("other");
    }
    let n = rest.unicode_len();
    if n == 0 || str_eq_ignore_ascii_case(rest, "other") {
        return None;
    }
    let (name_raw, group_raw): (String, Option<String>) = match find_equals(rest) {
        Some(i) => {
            proof {
                assert forall|i2: int| first_equals(rest@, i2) implies i2 == i by {
                    if i2 < i {
                        assert(rest@[i2] != '=');
                    }
                    if i2 > i {
                        assert(rest@[i as int] != '=');
                    }
                }
            }
            let name_part = trim_str(rest.substring_char(0, i));
            let group_part = trim_str(rest.substring_char(i + 1, n));
            (String::from_str(name_part), non_empty_string(group_part))
        },
        None => (String::from_str(rest), None),
    };
    let ghost parts = split_name_group(rest@);
    assert(name_raw@ == parts.0 && opt_view(group_raw) == parts.1);
    let nm = name_raw.as_str();
    let grouped = nm.unicode_len() > 0 && nm.get_char(0) == '<';
    let name = if grouped {
        String::from_str(trim_str(nm.substring_char(1, nm.unicode_len())))
    } else {
        name_raw.clone()
    };
    proof {
        if grouped {
            assert(nm@.subrange(1, nm@.len() as int) =~= parts.0.drop_first());
        }
    }
    let (group, shown): (Option<String>, bool) = match group_raw {
        Some(g) => {
            let gs = g.as_str();
            if gs.unicode_len() > 0 && gs.get_char(0) == '=' {
                proof {
                    assert(gs@.subrange(1, gs@.len() as int) =~= gs@.drop_first());
                }
                (non_empty_string(trim_str(gs.substring_char(1, gs.unicode_len()))), true)
            } else {
                (Some(g), false)
            }
        },
        None => (None, false),
    };
    Some(TaggedPresenter { name, group, always_grouped: grouped, always_shown: shown })
}

} // verus!
