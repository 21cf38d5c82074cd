use vstd::prelude::*;
use vstd::string::*;

use crate::text::{
    first_sep, first_sep_from, has_prefix, starts_with, suffix_from, trim_spec, trim_str,
};

verus! {

// One line of an input list, after parsing: either a literal-identifier
// record (written by the resume log, replayed without any catalog lookup),
// a plain name, or a double-faced pairing of two names.

/// The reserved prefix of a literal-identifier record.
pub open spec fn id_prefix() -> Seq<char> {
    "[id]"@
}

/// The variant (foil) marker prefix.
pub open spec fn foil_prefix() -> Seq<char> {
    "[F]"@
}

pub enum Line {
    Literal { id: String, foil: bool },
    Single { name: String, foil: bool },
    Pair { first: String, second: String, raw: String, foil: bool },
}

#[verifier::ext_equal]
pub enum LineModel {
    Literal { id: Seq<char>, foil: bool },
    Single { name: Seq<char>, foil: bool },
    Pair { first: Seq<char>, second: Seq<char>, raw: Seq<char>, foil: bool },
}

impl View for Line {
    type V = LineModel;

    open spec fn view(&self) -> LineModel {
        match self {
            Line::Literal { id, foil } => LineModel::Literal { id: id@, foil: *foil },
            Line::Single { name, foil } => LineModel::Single { name: name@, foil: *foil },
            Line::Pair { first, second, raw, foil } => LineModel::Pair {
                first: first@,
                second: second@,
                raw: raw@,
                foil: *foil,
            },
        }
    }
}

/// How one raw input line is read: a leading literal-identifier marker wins;
/// otherwise the variant marker is stripped, and a double-faced separator
/// splits the name in two trimmed halves.
pub open spec fn parse_line_spec(s: Seq<char>) -> LineModel {
    if starts_with(s, id_prefix()) {
        let rest = s.skip(id_prefix().len() as int);
        if starts_with(rest, foil_prefix()) {
            LineModel::Literal { id: rest.skip(foil_prefix().len() as int), foil: true }
        } else {
            LineModel::Literal { id: rest, foil: false }
        }
    } else {
        let foil = starts_with(s, foil_prefix());
        let name = if foil {
            s.skip(foil_prefix().len() as int)
        } else {
            s
        };
        let p = first_sep(name);
        if p >= 0 {
            LineModel::Pair {
                first: trim_spec(name.take(p)),
                second: trim_spec(name.skip(p + 2)),
                raw: name,
                foil,
            }
        } else {
            LineModel::Single { name, foil }
        }
    }
}

fn find_sep(name: &str) -> (p: Option<usize>)
    ensures
        match p {
            Some(i) => first_sep(name@) == i as int && i + 2 <= name@.len(),
            None => first_sep(name@) == -1,
        },
{
    let n = name.unicode_len();
    if n < 2 {
        return None;
    }
    let mut i: usize = 0;
    while i <= n - 2
        invariant
            n == name@.len(),
            2 <= n,
            i <= n,
            first_sep(name@) == first_sep_from(name@, i as int),
        decreases n - i,
    {
        if name.get_char(i) == '/' && name.get_char(i + 1) == '/' {
            return Some(i);
        }
        i += 1;
    }
    None
}

/// Parses one raw input line.
pub fn parse_line(line: &str) -> (r: Line)
    ensures
        r@ == parse_line_spec(line@),
{
    if has_prefix(line, "[id]") {
        let rest = suffix_from(line, "[id]".unicode_len());
        if has_prefix(rest.as_str(), "[F]") {
            let id = suffix_from(rest.as_str(), "[F]".unicode_len());
            Line::Literal { id, foil: true }
        } else {
            Line::Literal { id: rest, foil: false }
        }
    } else {
        let foil = has_prefix(line, "[F]");
        let name = if foil {
            suffix_from(line, "[F]".unicode_len())
        } else {
            line.to_owned()
        };
        match find_sep(name.as_str()) {
            Some(p) => {
                let n = name.unicode_len();
                let first = trim_str(name.as_str().substring_char(0, p));
                let second = trim_str(name.as_str().substring_char(p + 2, n));
                proof {
                    assert(name@.subrange(0, p as int) =~= name@.take(p as int));
                    assert(name@.subrange(p as int + 2, name@.len() as int) =~= name@.skip(
                        p as int + 2,
                    ));
                }
                Line::Pair { first, second, raw: name, foil }
            },
            None => Line::Single { name, foil },
        }
    }
}

/// The text of a literal-identifier record, as the resume log writes it.
pub open spec fn literal_line_spec(id: Seq<char>, foil: bool) -> Seq<char> {
    if foil {
        id_prefix() + foil_prefix() + id
    } else {
        id_prefix() + id
    }
}

/// Writes the literal-identifier record for one resolved line.
pub fn literal_line(id: &str, foil: bool) -> (r: String)
    ensures
        r@ == literal_line_spec(id@, foil),
{
    let mut r = String::from_str("[id]");
    if foil {
        r.append("[F]");
    }
    r.append(id);
    r
}

/// A literal-identifier record parses back to exactly the identifier and
/// variant flag it was written from, so replaying a resume log resolves each
/// recorded line without any lookup and without any operator interaction.
/// (The one excluded input: a non-foil identifier that itself begins with the
/// variant marker would read back as a foil record.)
pub proof fn lemma_literal_roundtrip(id: Seq<char>, foil: bool)
    requires
        !foil ==> !starts_with(id, foil_prefix()),
    ensures
        parse_line_spec(literal_line_spec(id, foil)) == (LineModel::Literal { id, foil }),
{
    let s = literal_line_spec(id, foil);
    if foil {
        let body = foil_prefix() + id;
        assert(s =~= id_prefix() + body);
        assert(s.subrange(0, id_prefix().len() as int) =~= id_prefix());
        assert(starts_with(s, id_prefix()));
        let rest = s.skip(id_prefix().len() as int);
        assert(rest =~= body);
        assert(body.subrange(0, foil_prefix().len() as int) =~= foil_prefix());
        assert(starts_with(rest, foil_prefix()));
        assert(rest.skip(foil_prefix().len() as int) =~= id);
    } else {
        assert(s.subrange(0, id_prefix().len() as int) =~= id_prefix());
        assert(starts_with(s, id_prefix()));
        let rest = s.skip(id_prefix().len() as int);
        assert(rest =~= id);
    }
}

} // verus!
