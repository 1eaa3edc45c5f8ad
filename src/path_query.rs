use vstd::prelude::*;
use vstd::string::*;

use crate::text::to_chars;

verus! {

/// How paths are written on a platform.
#[derive(PartialEq, Eq, Structural, Clone, Copy, Debug)]
pub enum PathStyle {
    /// `/` separates components.
    Posix,
    /// `\` and `/` both separate components, and a path may start with a
    /// drive such as `C:`.
    Windows,
}

/// `c` separates path components in `style`.
pub open spec fn is_sep(style: PathStyle, c: char) -> bool {
    c == '/' || (style == PathStyle::Windows && c == '\\')
}

/// The separator that `style` writes.
pub open spec fn sep_of(style: PathStyle) -> Seq<char> {
    match style {
        PathStyle::Posix => seq!['/'],
        PathStyle::Windows => seq!['\\'],
    }
}

pub open spec fn is_ascii_letter(c: char) -> bool {
    ('a' <= c && c <= 'z') || ('A' <= c && c <= 'Z')
}

/// The length of the drive that starts `s` (`C:`), 0 when there is none.
pub open spec fn drive_len(s: Seq<char>, style: PathStyle) -> int {
    if style == PathStyle::Windows && s.len() >= 2 && is_ascii_letter(s[0]) && s[1] == ':' {
        2
    } else {
        0
    }
}

/// The index of the last separator among the first `n` characters, or -1.
pub open spec fn last_sep_before(s: Seq<char>, style: PathStyle, n: int) -> int
    decreases n,
{
    if n <= 0 {
        -1
    } else if is_sep(style, s[n - 1]) {
        n - 1
    } else {
        last_sep_before(s, style, n - 1)
    }
}

/// Where a typed path splits into the directory part and the partial name:
/// after its last separator, and never inside its drive.
pub open spec fn split_point(s: Seq<char>, style: PathStyle) -> int {
    let after_sep = last_sep_before(s, style, s.len() as int) + 1;
    if after_sep < drive_len(s, style) {
        drive_len(s, style)
    } else {
        after_sep
    }
}

/// The directory part of a typed path, separators and drive as typed.
pub open spec fn prefix_of(s: Seq<char>, style: PathStyle) -> Seq<char> {
    s.take(split_point(s, style))
}

/// The partial name that follows the directory part.
pub open spec fn partial_of(s: Seq<char>, style: PathStyle) -> Seq<char> {
    s.skip(split_point(s, style))
}

/// The typed path ends with a separator.
pub open spec fn ends_with_sep(s: Seq<char>, style: PathStyle) -> bool {
    s.len() > 0 && is_sep(style, s.last())
}

/// A typed path, split into what names a directory and what is being typed
/// of a name in it.
pub struct ParsedQuery {
    pub directory_prefix: String,
    pub partial_name: String,
    pub ends_with_separator: bool,
    pub drive_prefix: Option<String>,
}

proof fn lemma_last_sep_before(s: Seq<char>, style: PathStyle, n: int)
    requires
        0 <= n <= s.len(),
    ensures
        -1 <= last_sep_before(s, style, n) < n,
        last_sep_before(s, style, n) >= 0 ==> is_sep(style, s[last_sep_before(s, style, n)]),
        forall|i: int| last_sep_before(s, style, n) < i < n ==> !is_sep(style, #[trigger] s[i]),
    decreases n,
{
    if n > 0 {
        lemma_last_sep_before(s, style, n - 1);
    }
}

impl PathStyle {
    /// Whether `c` separates path components in this style.
    pub fn is_separator(&self, c: char) -> (r: bool)
        ensures
            r == is_sep(*self, c),
    {
        c == '/' || (*self == PathStyle::Windows && c == '\\')
    }

    /// The separator that this style writes.
    pub fn separator(&self) -> (r: &'static str)
        ensures
            r@ == sep_of(*self),
    {
        match self {
            PathStyle::Posix => {
                proof {
                    reveal_strlit("/");
                }
                "/"
            },
            PathStyle::Windows => {
                proof {
                    reveal_strlit("\\");
                }
                "\\"
            },
        }
    }
}

/// Splits a typed path after its last separator (never inside a drive such
/// as `C:`), keeping both parts exactly as typed.
pub fn parse_query(raw: &str, style: PathStyle) -> (r: ParsedQuery)
    ensures
        r.directory_prefix@ == prefix_of(raw@, style),
        r.partial_name@ == partial_of(raw@, style),
        r.ends_with_separator == ends_with_sep(raw@, style),
        drive_len(raw@, style) > 0 ==> r.drive_prefix is Some && r.drive_prefix->0@ == raw@.take(2),
        drive_len(raw@, style) == 0 ==> r.drive_prefix is None,
        r.directory_prefix@ + r.partial_name@ == raw@,
        forall|i: int| 0 <= i < r.partial_name@.len() ==> !is_sep(style, #[trigger] r.partial_name@[i]),
        r.directory_prefix@.len() == drive_len(raw@, style) || (r.directory_prefix@.len() > drive_len(raw@, style)
            && is_sep(style, r.directory_prefix@.last())),
{
    let chars = to_chars(raw);
    let n = chars.len();
    let mut i: usize = n;
    while i > 0 && !style.is_separator(chars[i - 1])
        invariant
            chars@ == raw@,
            n == raw@.len(),
            i <= n,
            last_sep_before(raw@, style, n as int) == last_sep_before(raw@, style, i as int),
        decreases i,
    {
        i -= 1;
    }
    let has_drive = style == PathStyle::Windows && n >= 2 && (('a' <= chars[0] && chars[0] <= 'z')
        || ('A' <= chars[0] && chars[0] <= 'Z')) && chars[1] == ':';
    let split = if has_drive && i < 2 {
        2
    } else {
        i
    };
    proof {
        lemma_last_sep_before(raw@, style, n as int);
    }
    assert(split == split_point(raw@, style));
    let directory_prefix = raw.substring_char(0, split).to_owned();
    let partial_name = raw.substring_char(split, n).to_owned();
    let drive_prefix = if has_drive {
        Some(raw.substring_char(0, 2).to_owned())
    } else {
        None
    };
    assert(raw@.subrange(0, split as int) + raw@.subrange(split as int, n as int) =~= raw@);
    assert(raw@.skip(split as int) =~= raw@.subrange(split as int, n as int));
    ParsedQuery {
        directory_prefix,
        partial_name,
        ends_with_separator: n > 0 && style.is_separator(chars[n - 1]),
        drive_prefix,
    }
}

} // verus!
