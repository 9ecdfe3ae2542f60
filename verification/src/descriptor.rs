//! The application descriptor grammar: line-oriented `Key=Value` groups,
//! one application per file. Decoding reads the `Exec`, `Name`, `Icon` and
//! `NoDisplay` keys of the `[Desktop Entry]` group; a later occurrence of a
//! key overrides an earlier one. Decoding fails when a line fits no rule of
//! the grammar or when the `[Desktop Entry]` group is missing.

use vstd::prelude::*;
use vstd::string::*;

use crate::text::{eq_str, find_ch, find_char_str, lemma_find_ch, split_char, split_str};

verus! {

/// A parsed application definition.
#[derive(Debug)]
pub struct ApplicationDescriptor {
    /// The unique application identifier (the file's stem).
    pub appid: String,
    /// The launch command field, if present.
    pub launch: Option<String>,
    /// The display-name field, if present.
    pub name: Option<String>,
    /// The symbolic icon name, if present.
    pub icon: Option<String>,
    /// Whether the source environment marked the application as not meant
    /// for a launcher.
    pub no_display: bool,
}

/// The mathematical shape of a decoded descriptor.
pub struct DescriptorView {
    pub appid: Seq<char>,
    pub launch: Option<Seq<char>>,
    pub name: Option<Seq<char>>,
    pub icon: Option<Seq<char>>,
    pub no_display: bool,
}

impl View for ApplicationDescriptor {
    type V = DescriptorView;

    open spec fn view(&self) -> DescriptorView {
        DescriptorView {
            appid: self.appid@,
            launch: opt_view(self.launch),
            name: opt_view(self.name),
            icon: opt_view(self.icon),
            no_display: self.no_display,
        }
    }
}

/// View of an optional owned string.
pub open spec fn opt_view(o: Option<String>) -> Option<Seq<char>> {
    match o {
        Some(s) => Some(s@),
        None => None,
    }
}

/// Why a descriptor failed to decode.
#[derive(Debug, Clone, Copy, PartialEq, Eq, Structural)]
pub enum DecodeError {
    /// Some line is neither blank, comment, group header nor `Key=Value`.
    BadLine,
    /// No `[Desktop Entry]` group header occurs in the text.
    MissingEntryGroup,
}

pub open spec fn is_blank(l: Seq<char>) -> bool {
    l.len() == 0
}

pub open spec fn is_comment(l: Seq<char>) -> bool {
    l.len() > 0 && l[0] == '#'
}

pub open spec fn is_header(l: Seq<char>) -> bool {
    l.len() >= 2 && l[0] == '[' && l.last() == ']'
}

pub open spec fn header_name(l: Seq<char>) -> Seq<char> {
    l.subrange(1, l.len() - 1)
}

pub open spec fn is_kv(l: Seq<char>) -> bool {
    find_ch(l, '=') is Some
}

pub open spec fn kv_key(l: Seq<char>) -> Seq<char> {
    l.subrange(0, find_ch(l, '=')->0)
}

pub open spec fn kv_value(l: Seq<char>) -> Seq<char> {
    l.subrange(find_ch(l, '=')->0 + 1, l.len() as int)
}

/// A line the grammar accepts.
pub open spec fn line_ok(l: Seq<char>) -> bool {
    is_blank(l) || is_comment(l) || is_header(l) || is_kv(l)
}

pub open spec fn all_lines_ok(lines: Seq<Seq<char>>) -> bool {
    forall|i: int| 0 <= i < lines.len() ==> line_ok(#[trigger] lines[i])
}

/// The group whose keys a descriptor's fields come from.
pub open spec fn entry_group() -> Seq<char> {
    "Desktop Entry"@
}

pub open spec fn is_entry_header(l: Seq<char>) -> bool {
    is_header(l) && header_name(l) == entry_group()
}

pub open spec fn has_entry_header(lines: Seq<Seq<char>>) -> bool {
    exists|i: int| 0 <= i < lines.len() && is_entry_header(#[trigger] lines[i])
}

/// Whether the whole text conforms to the descriptor grammar.
pub open spec fn decode_ok(text: Seq<char>) -> bool {
    let lines = split_char(text, '\n');
    all_lines_ok(lines) && has_entry_header(lines)
}

/// The first operand if present, else the second.
pub open spec fn opt_or(a: Option<Seq<char>>, b: Option<Seq<char>>) -> Option<Seq<char>> {
    if a is Some {
        a
    } else {
        b
    }
}

/// Value of the last `key=` line inside the entry group; `in_group` says
/// whether the lines start inside that group. Comment lines are skipped.
pub open spec fn lookup_key(lines: Seq<Seq<char>>, in_group: bool, key: Seq<char>) -> Option<
    Seq<char>,
>
    decreases lines.len(),
{
    if lines.len() == 0 {
        None
    } else {
        let head = lines[0];
        if is_header(head) {
            lookup_key(lines.drop_first(), header_name(head) == entry_group(), key)
        } else if is_comment(head) {
            lookup_key(lines.drop_first(), in_group, key)
        } else if in_group && is_kv(head) && kv_key(head) == key {
            opt_or(lookup_key(lines.drop_first(), in_group, key), Some(kv_value(head)))
        } else {
            lookup_key(lines.drop_first(), in_group, key)
        }
    }
}

/// Field lookup over a whole text.
pub open spec fn field_of(text: Seq<char>, key: Seq<char>) -> Option<Seq<char>> {
    lookup_key(split_char(text, '\n'), false, key)
}

/// The decoded descriptor of a conforming text.
pub open spec fn decode_spec(appid: Seq<char>, text: Seq<char>) -> Option<DescriptorView> {
    if decode_ok(text) {
        Some(
            DescriptorView {
                appid: appid,
                launch: field_of(text, "Exec"@),
                name: field_of(text, "Name"@),
                icon: field_of(text, "Icon"@),
                no_display: field_of(text, "NoDisplay"@) == Some("true"@),
            },
        )
    } else {
        None
    }
}

/// Decode descriptor text; `appid` is the identifier the caller derived
/// from the file name.
pub fn decode(appid: &str, text: &str) -> (r: Result<ApplicationDescriptor, DecodeError>)
    ensures
        match r {
            Ok(d) => decode_spec(appid@, text@) == Some(d@),
            Err(e) => decode_spec(appid@, text@) is None && (e is BadLine <==> !all_lines_ok(
                split_char(text@, '\n'),
            )),
        },
{
    let lines = split_str(text, '\n');
    let ghost dv = lines.deep_view();
    let n = lines.len();
    let mut in_group = false;
    let mut seen = false;
    let mut acc_exec: Option<String> = None;
    let mut acc_name: Option<String> = None;
    let mut acc_icon: Option<String> = None;
    let mut acc_nd: Option<String> = None;
    let mut i: usize = 0;
    proof {
        assert(dv.skip(0) =~= dv);
    }
    while i < n
        invariant
            n == lines@.len(),
            dv == lines.deep_view(),
            dv == split_char(text@, '\n'),
            0 <= i <= n,
            forall|j: int| 0 <= j < i ==> line_ok(#[trigger] dv[j]),
            seen == exists|j: int| 0 <= j < i && is_entry_header(#[trigger] dv[j]),
            opt_or(lookup_key(dv.skip(i as int), in_group, "Exec"@), opt_view(acc_exec))
                == lookup_key(dv, false, "Exec"@),
            opt_or(lookup_key(dv.skip(i as int), in_group, "Name"@), opt_view(acc_name))
                == lookup_key(dv, false, "Name"@),
            opt_or(lookup_key(dv.skip(i as int), in_group, "Icon"@), opt_view(acc_icon))
                == lookup_key(dv, false, "Icon"@),
            opt_or(lookup_key(dv.skip(i as int), in_group, "NoDisplay"@), opt_view(acc_nd))
                == lookup_key(dv, false, "NoDisplay"@),
        decreases n - i,
    {
        let l = lines[i].as_str();
        let llen = l.unicode_len();
        proof {
            assert(dv[i as int] == lines@[i as int]@);
            assert(dv.skip(i as int)[0] == dv[i as int]);
            assert(dv.skip(i as int).drop_first() =~= dv.skip(i + 1));
        }
        if llen == 0 {
            // blank line
        } else if l.get_char(0) == '#' {
            // comment line
        } else if llen >= 2 && l.get_char(0) == '[' && l.get_char(llen - 1) == ']' {
            let gname = l.substring_char(1, llen - 1);
            let enter = eq_str(gname, "Desktop Entry");
            proof {
                assert(l@.last() == l@[llen - 1]);
                assert(gname@ =~= header_name(dv[i as int]));
            }
            in_group = enter;
            if enter {
                seen = true;
            }
        } else {
            match find_char_str(l, '=') {
                None => {
                    proof {
                        lemma_find_ch(l@, '=');
                        assert(!line_ok(dv[i as int]));
                        assert(!all_lines_ok(dv));
                    }
                    return Err(DecodeError::BadLine);
                },
                Some(e) => {
                    proof {
                        lemma_find_ch(l@, '=');
                    }
                    let k = l.substring_char(0, e);
                    let v = l.substring_char(e + 1, llen);
                    proof {
                        assert(kv_key(dv[i as int]) =~= k@);
                        assert(kv_value(dv[i as int]) =~= v@);
                        assert(!is_header(dv[i as int]) || !is_kv(dv[i as int]) || true);
                        assert(dv[i as int][0] == l@[0]);
                        assert(!is_header(dv[i as int]));
                    }
                    proof {
                        reveal_strlit("Exec");
                        reveal_strlit("Name");
                        reveal_strlit("Icon");
                        reveal_strlit("NoDisplay");
                        assert("Exec"@[0] == 'E' && "Name"@[0] == 'N' && "Icon"@[0] == 'I');
                        assert("Name"@.len() == 4 && "Icon"@.len() == 4 && "NoDisplay"@.len()
                            == 9);
                        assert("Exec"@ != "Name"@ && "Exec"@ != "Icon"@ && "Exec"@
                            != "NoDisplay"@);
                        assert("Name"@ != "Icon"@);
                        assert("Name"@ != "NoDisplay"@);
                        assert("Icon"@ != "NoDisplay"@);
                    }
                    if in_group {
                        if eq_str(k, "Exec") {
                            acc_exec = Some(String::from_str(v));
                        } else if eq_str(k, "Name") {
                            acc_name = Some(String::from_str(v));
                        } else if eq_str(k, "Icon") {
                            acc_icon = Some(String::from_str(v));
                        } else if eq_str(k, "NoDisplay") {
                            acc_nd = Some(String::from_str(v));
                        }
                    }
                },
            }
        }
        i += 1;
    }
    proof {
        assert(dv.skip(n as int) =~= Seq::<Seq<char>>::empty());
        assert(dv.subrange(0, n as int) =~= dv);
    }
    if !seen {
        return Err(DecodeError::MissingEntryGroup);
    }
    let no_display = match &acc_nd {
        Some(v) => eq_str(v.as_str(), "true"),
        None => false,
    };
    Ok(
        ApplicationDescriptor {
            appid: String::from_str(appid),
            launch: acc_exec,
            name: acc_name,
            icon: acc_icon,
            no_display,
        },
    )
}

} // verus!
