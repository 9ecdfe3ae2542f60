//! The descriptor rewriter: a line-oriented text transform that replaces
//! the value of every `Exec=` and `Name=` line with the runtime kind's
//! replacement template, substituting the captured original value for the
//! template's `${2}` placeholder. An empty template makes the
//! corresponding pass leave every line unchanged.

use vstd::prelude::*;
use vstd::string::*;

use crate::container_type::ContainerType;
use crate::text::{
    find_sub, is_space_char, is_space_char_exec, join_char, join_str, lemma_find_sub,
    find_sub_str, lemma_join_split, match_at_str, split_char, split_str,
};

verus! {

/// The placeholder inside a replacement template that receives the
/// captured field value.
pub open spec fn marker() -> Seq<char> {
    "${2}"@
}

/// The key whose lines the exec pass rewrites.
pub open spec fn exec_key() -> Seq<char> {
    "Exec="@
}

/// The key whose lines the name pass rewrites.
pub open spec fn name_key() -> Seq<char> {
    "Name="@
}

/// Replace every occurrence of the placeholder in `t` by `cap`,
/// scanning left to right; substituted text is not rescanned.
pub open spec fn subst_template(t: Seq<char>, cap: Seq<char>) -> Seq<char>
    decreases t.len(),
{
    if t.len() < 4 {
        t
    } else if t.subrange(0, 4) == marker() {
        cap + subst_template(t.skip(4), cap)
    } else {
        seq![t[0]] + subst_template(t.drop_first(), cap)
    }
}

/// Rewrite one line: if the key occurs, everything from its first
/// occurrence to the end of the line is replaced by the substituted
/// template; one whitespace character directly after the key is left out
/// of the captured value. An empty template or an absent key leaves the
/// line unchanged.
pub open spec fn rewrite_line(line: Seq<char>, key: Seq<char>, template: Seq<char>) -> Seq<char> {
    if template.len() == 0 {
        line
    } else {
        match find_sub(line, key) {
            None => line,
            Some(i) => {
                let after = line.skip(i + key.len() as int);
                let cap = if after.len() > 0 && is_space_char(after[0]) {
                    after.drop_first()
                } else {
                    after
                };
                line.subrange(0, i) + subst_template(template, cap)
            },
        }
    }
}

/// One rewrite pass over a whole text, line by line.
pub open spec fn rewrite_text(text: Seq<char>, key: Seq<char>, template: Seq<char>) -> Seq<char> {
    join_char(
        split_char(text, '\n').map_values(|l: Seq<char>| rewrite_line(l, key, template)),
        '\n',
    )
}

/// Both rewrite passes of one runtime kind: first the exec lines, then
/// the name lines of the resulting text.
pub open spec fn rewrite_descriptor(kind: ContainerType, name: Seq<char>, text: Seq<char>) -> Seq<
    char,
> {
    rewrite_text(
        rewrite_text(text, exec_key(), kind.desktop_exec_template(name)),
        name_key(),
        kind.desktop_name_template(name),
    )
}

/// The rewriter is a function of its inputs: two applications to the same
/// original text with the same runtime kind and container name give the
/// same output as one.
pub proof fn lemma_rewrite_deterministic(
    kind: ContainerType,
    name: Seq<char>,
    text: Seq<char>,
    first: Seq<char>,
    second: Seq<char>,
)
    requires
        first == rewrite_descriptor(kind, name, text),
        second == rewrite_descriptor(kind, name, text),
    ensures
        first == second,
{
}

/// An empty template leaves the whole text unchanged.
pub proof fn lemma_empty_template_is_noop(text: Seq<char>, key: Seq<char>)
    ensures
        rewrite_text(text, key, Seq::empty()) == text,
{
    let parts = split_char(text, '\n');
    assert(parts.map_values(|l: Seq<char>| rewrite_line(l, key, Seq::empty())) =~= parts);
    lemma_join_split(text, '\n');
}

/// Replace every `${2}` in `t` by `cap`.
pub fn subst_template_str(t: &str, cap: &str) -> (r: String)
    ensures
        r@ == subst_template(t@, cap@),
{
    proof {
        reveal_strlit("${2}");
    }
    let n = t.unicode_len();
    let mut out = String::new();
    let mut seg_start: usize = 0;
    let mut p: usize = 0;
    proof {
        assert(t@.skip(0) =~= t@);
        assert(t@.subrange(0, 0) =~= Seq::<char>::empty());
    }
    while n - p >= 4
        invariant
            n == t@.len(),
            0 <= seg_start <= p <= n,
            subst_template(t@, cap@) == out@ + t@.subrange(seg_start as int, p as int)
                + subst_template(t@.skip(p as int), cap@),
        decreases n - p,
    {
        proof {
            reveal_strlit("${2}");
        }
        if match_at_str(t, "${2}", p) {
            out.append(t.substring_char(seg_start, p));
            out.append(cap);
            proof {
                let rest = t@.skip(p as int);
                assert(rest.subrange(0, 4) =~= t@.subrange(p as int, p + 4));
                assert(rest.subrange(0, 4) == marker());
                assert(subst_template(rest, cap@) == cap@ + subst_template(
                    rest.skip(4),
                    cap@,
                ));
                assert(rest.skip(4) =~= t@.skip(p + 4));
                assert(out@ + t@.subrange(p + 4 as int, p + 4 as int) =~= out@);
            }
            p = p + 4;
            seg_start = p;
        } else {
            proof {
                let rest = t@.skip(p as int);
                assert(rest.subrange(0, 4) =~= t@.subrange(p as int, p + 4));
                assert(rest.subrange(0, 4) != marker());
                assert(rest.len() >= 4);
                assert(subst_template(rest, cap@) == seq![rest[0]] + subst_template(
                    rest.drop_first(),
                    cap@,
                ));
                assert(rest[0] == t@[p as int]);
                assert(rest.drop_first() =~= t@.skip(p + 1));
                assert(t@.subrange(seg_start as int, p as int) + seq![t@[p as int]]
                    =~= t@.subrange(seg_start as int, p + 1));
            }
            p = p + 1;
        }
    }
    proof {
        let rest = t@.skip(p as int);
        assert(rest.len() < 4);
        assert(subst_template(rest, cap@) == rest);
        assert(t@.subrange(seg_start as int, p as int) + rest =~= t@.subrange(
            seg_start as int,
            n as int,
        ));
    }
    out.append(t.substring_char(seg_start, n));
    out
}

/// Rewrite one line for one `(key, template)` pair.
pub fn rewrite_line_str(line: &str, key: &str, template: &str) -> (r: String)
    ensures
        r@ == rewrite_line(line@, key@, template@),
{
    if template.is_empty() {
        return line.to_owned();
    }
    let n = line.unicode_len();
    let klen = key.unicode_len();
    match find_sub_str(line, key) {
        None => line.to_owned(),
        Some(i) => {
            proof {
                lemma_find_sub(line@, key@);
            }
            let after_start = i + klen;
            let cap_start = if after_start < n && is_space_char_exec(line.get_char(after_start)) {
                after_start + 1
            } else {
                after_start
            };
            let cap = line.substring_char(cap_start, n);
            proof {
                let after = line@.skip(i + key@.len() as int);
                assert(after =~= line@.subrange(after_start as int, n as int));
                if after.len() > 0 {
                    assert(after[0] == line@[after_start as int]);
                }
                if after.len() > 0 && is_space_char(after[0]) {
                    assert(after.drop_first() =~= line@.subrange(cap_start as int, n as int));
                } else {
                    assert(after =~= line@.subrange(cap_start as int, n as int));
                }
            }
            let mut out = String::from_str(line.substring_char(0, i));
            let sub = subst_template_str(template, cap);
            out.append(sub.as_str());
            out
        },
    }
}

/// One rewrite pass over a whole text, line by line.
pub fn rewrite_text_str(text: &str, key: &str, template: &str) -> (r: String)
    ensures
        r@ == rewrite_text(text@, key@, template@),
{
    let lines = split_str(text, '\n');
    let ghost f = |l: Seq<char>| rewrite_line(l, key@, template@);
    let mut out: Vec<String> = Vec::new();
    let mut i: usize = 0;
    proof {
        assert(out.deep_view() =~= lines.deep_view().subrange(0, 0).map_values(f));
    }
    while i < lines.len()
        invariant
            0 <= i <= lines@.len(),
            lines.deep_view() == split_char(text@, '\n'),
            f == (|l: Seq<char>| rewrite_line(l, key@, template@)),
            out.deep_view() == lines.deep_view().subrange(0, i as int).map_values(f),
        decreases lines@.len() - i,
    {
        let rl = rewrite_line_str(lines[i].as_str(), key, template);
        proof {
            let dv = lines.deep_view();
            let pre = dv.subrange(0, i as int);
            assert(dv[i as int] == lines@[i as int]@);
            assert(rl@ == f(dv[i as int]));
            let pushed = out@.push(rl);
            assert(Seq::new(pushed.len(), |q: int| pushed[q].deep_view()) =~= out.deep_view().push(
                rl@,
            ));
            assert(dv.subrange(0, i + 1 as int) =~= pre.push(dv[i as int]));
            assert(pre.push(dv[i as int]).map_values(f) =~= pre.map_values(f).push(
                f(dv[i as int]),
            ));
        }
        out.push(rl);
        i += 1;
    }
    proof {
        let dv = lines.deep_view();
        assert(dv.subrange(0, dv.len() as int) =~= dv);
        reveal_strlit("\n");
    }
    join_str(&out, "\n")
}

/// Both rewrite passes of one runtime kind over raw descriptor text.
pub fn rewrite_descriptor_str(kind: ContainerType, container_name: &str, text: &str) -> (r: String)
    ensures
        r@ == rewrite_descriptor(kind, container_name@, text@),
{
    let exec_template = kind.format_desktop_exec(container_name);
    let name_template = kind.format_desktop_name(container_name);
    let pass1 = rewrite_text_str(text, "Exec=", exec_template.as_str());
    rewrite_text_str(pass1.as_str(), "Name=", name_template.as_str())
}

} // verus!
