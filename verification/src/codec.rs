use sha2::Digest;
use vstd::prelude::*;
use vstd::string::*;

use crate::text::starts_with;

verus! {

// The list fingerprint: either supplied on the first line as
// `uid=<hex-encoded bytes>`, or computed as the SHA-256 digest of the whole
// file content.

/// The hex digit for one value below 16, lower case.
pub open spec fn hex_digit(v: int) -> char {
    if v == 0 {
        '0'
    } else if v == 1 {
        '1'
    } else if v == 2 {
        '2'
    } else if v == 3 {
        '3'
    } else if v == 4 {
        '4'
    } else if v == 5 {
        '5'
    } else if v == 6 {
        '6'
    } else if v == 7 {
        '7'
    } else if v == 8 {
        '8'
    } else if v == 9 {
        '9'
    } else if v == 10 {
        'a'
    } else if v == 11 {
        'b'
    } else if v == 12 {
        'c'
    } else if v == 13 {
        'd'
    } else if v == 14 {
        'e'
    } else {
        'f'
    }
}

/// The hex encoding of a byte sequence: two lower-case digits per byte.
pub open spec fn hex_encode_spec(b: Seq<u8>) -> Seq<char> {
    Seq::new(b.len() * 2, |i: int| {
        if i % 2 == 0 {
            hex_digit(b[i / 2] as int / 16)
        } else {
            hex_digit(b[i / 2] as int % 16)
        }
    })
}

pub open spec fn is_hex_char(c: char) -> bool {
    ('0' <= c && c <= '9') || ('a' <= c && c <= 'f') || ('A' <= c && c <= 'F')
}

pub open spec fn hex_val(c: char) -> int {
    if '0' <= c && c <= '9' {
        c as int - '0' as int
    } else if 'a' <= c && c <= 'f' {
        c as int - 'a' as int + 10
    } else {
        c as int - 'A' as int + 10
    }
}

/// A sequence of characters is valid hex: even length, all hex digits.
pub open spec fn valid_hex(s: Seq<char>) -> bool {
    s.len() % 2 == 0 && forall|i: int| 0 <= i < s.len() ==> is_hex_char(#[trigger] s[i])
}

/// The bytes a valid hex string decodes to.
pub open spec fn hex_decode_spec(s: Seq<char>) -> Seq<u8> {
    Seq::new(s.len() / 2, |i: int| (hex_val(s[2 * i]) * 16 + hex_val(s[2 * i + 1])) as u8)
}

/// Relies on hex::encode: two lower-case digits per byte, in order.
#[verifier::external_body]
fn hex_encode(b: &Vec<u8>) -> (r: String)
    ensures
        r@ == hex_encode_spec(b@),
{
    hex::encode(b)
}

/// Relies on hex::decode: accepts exactly the even-length strings of hex
/// digits (either case), and reads two digits per byte, high nibble first.
#[verifier::external_body]
fn hex_decode(s: &str) -> (r: Option<Vec<u8>>)
    ensures
        r is Some <==> valid_hex(s@),
        r matches Some(b) ==> b@ == hex_decode_spec(s@),
{
    hex::decode(s).ok()
}

/// The SHA-256 digest of a text, named: it depends on the characters alone.
pub uninterp spec fn sha256_of_text(s: Seq<char>) -> Seq<u8>;

/// Relies on sha2's Sha256: a 32-byte digest of the input bytes.
#[verifier::external_body]
fn sha256_digest(content: &str) -> (r: Vec<u8>)
    ensures
        r@ == sha256_of_text(content@),
        r@.len() == 32,
{
    sha2::Sha256::digest(content.as_bytes()).to_vec()
}

/// The fingerprint header prefix.
pub open spec fn uid_prefix() -> Seq<char> {
    "uid="@
}

/// The fingerprint header line: `uid=` followed by the hex-encoded bytes.
pub open spec fn uid_header_spec(uid: Seq<u8>) -> Seq<char> {
    uid_prefix() + hex_encode_spec(uid)
}

/// Writes the fingerprint header line of a resume log.
pub fn uid_header(uid: &Vec<u8>) -> (r: String)
    ensures
        r@ == uid_header_spec(uid@),
{
    let mut r = String::from_str("uid=");
    let enc = hex_encode(uid);
    r.append(enc.as_str());
    r
}

/// What the fingerprint of a list is: the bytes of a well-formed `uid=`
/// first line if one is present, else the SHA-256 digest of the whole
/// content. A `uid=` line whose remainder is not valid hex is an input
/// error.
pub open spec fn fingerprint_spec(content: Seq<char>, first: Seq<char>) -> Option<Seq<u8>> {
    if starts_with(first, uid_prefix()) {
        let rest = first.skip(uid_prefix().len() as int);
        if valid_hex(rest) {
            Some(hex_decode_spec(rest))
        } else {
            None
        }
    } else {
        Some(sha256_of_text(content))
    }
}

/// Reads the fingerprint of a list from its whole content and its first
/// line. `Ok((uid, true))` means the first line was a header and is not an
/// item line; `Err(())` is the malformed-header input error.
pub fn read_fingerprint(content: &str, first: &str) -> (r: Result<(Vec<u8>, bool), ()>)
    ensures
        match r {
            Ok((uid, header)) => fingerprint_spec(content@, first@) == Some(uid@) && header
                == starts_with(first@, uid_prefix()),
            Err(()) => fingerprint_spec(content@, first@) is None,
        },
{
    if crate::text::has_prefix(first, "uid=") {
        let rest = crate::text::suffix_from(first, "uid=".unicode_len());
        match hex_decode(rest.as_str()) {
            Some(uid) => Ok((uid, true)),
            None => Err(()),
        }
    } else {
        let uid = sha256_digest(content);
        Ok((uid, false))
    }
}

/// The first position at or after `i` of a line feed in `s`, or -1.
pub open spec fn first_nl_from(s: Seq<char>, i: int) -> int
    recommends
        0 <= i,
    decreases s.len() - i,
{
    if i + 1 > s.len() {
        -1
    } else if s[i] == '\n' {
        i
    } else {
        first_nl_from(s, i + 1)
    }
}

/// A line with its carriage return stripped, as a line feed preceded by one
/// is read.
pub open spec fn chomp_cr(t: Seq<char>) -> Seq<char> {
    if t.len() > 0 && t[t.len() - 1] == '\r' {
        t.take(t.len() - 1)
    } else {
        t
    }
}

/// The lines of a text: split at each line feed, one optional carriage
/// return stripped before it, no empty final line for a trailing line feed.
pub open spec fn lines_spec(s: Seq<char>) -> Seq<Seq<char>>
    decreases s.len(),
{
    if s.len() == 0 {
        Seq::empty()
    } else {
        let p = first_nl_from(s, 0);
        if 0 <= p < s.len() {
            seq![chomp_cr(s.take(p))] + lines_spec(s.skip(p + 1))
        } else {
            seq![s]
        }
    }
}

/// The views of a sequence of lines.
pub open spec fn line_views(v: Seq<String>) -> Seq<Seq<char>> {
    v.map_values(|x: String| x@)
}

/// Splits a text into its lines.
pub fn split_lines(content: &str) -> (r: Vec<String>)
    ensures
        line_views(r@) == lines_spec(content@),
{
    let n = content.unicode_len();
    let mut out: Vec<String> = Vec::new();
    let mut start: usize = 0;
    proof {
        assert(content@.skip(0) =~= content@);
        assert(line_views(out@) =~= Seq::<Seq<char>>::empty());
        assert(line_views(out@) + lines_spec(content@.skip(0)) =~= lines_spec(content@));
    }
    while start < n
        invariant
            start <= n,
            n == content@.len(),
            line_views(out@) + lines_spec(content@.skip(start as int)) == lines_spec(content@),
        decreases n - start,
    {
        let ghost t = content@.skip(start as int);
        let mut j: usize = start;
        proof {
            assert(first_nl_from(t, 0) == first_nl_from(t, (j - start) as int));
        }
        while j < n && content.get_char(j) != '\n'
            invariant
                start <= j <= n,
                n == content@.len(),
                t == content@.skip(start as int),
                first_nl_from(t, 0) == first_nl_from(t, j - start as int),
                forall|k: int| start <= k < j ==> content@[k] != '\n',
            decreases n - j,
        {
            proof {
                assert(t[j - start as int] == content@[j as int]);
                assert(first_nl_from(t, j - start as int) == first_nl_from(
                    t,
                    j + 1 - start as int,
                ));
            }
            j += 1;
        }
        let ghost old_out = out@;
        if j >= n {
            proof {
                assert(j - start as int == t.len());
                assert(first_nl_from(t, 0) == -1);
                assert(lines_spec(t) =~= seq![t]);
            }
            let line = content.substring_char(start, n);
            out.push(line.to_owned());
            proof {
                assert(content@.subrange(start as int, n as int) =~= t);
                assert(line_views(out@) =~= line_views(old_out).push(t));
                assert(line_views(old_out).push(t) =~= line_views(old_out) + seq![t]);
                assert(line_views(out@) + lines_spec(content@.skip(n as int)) =~= lines_spec(
                    content@,
                )) by {
                    assert(content@.skip(n as int) =~= Seq::<char>::empty());
                    assert(lines_spec(content@.skip(n as int)) =~= Seq::<Seq<char>>::empty());
                }
            }
            start = n;
        } else {
            proof {
                assert(content@[j as int] == '\n');
                assert(t[j - start as int] == '\n');
                assert(first_nl_from(t, 0) == j - start as int);
                assert(t.take(j - start as int) =~= content@.subrange(start as int, j as int));
                assert(t.skip(j - start as int + 1) =~= content@.skip(j as int + 1));
                assert(lines_spec(t) == seq![chomp_cr(t.take(j - start as int))] + lines_spec(
                    t.skip(j - start as int + 1),
                ));
            }
            let line = if j > start && content.get_char(j - 1) == '\r' {
                content.substring_char(start, j - 1)
            } else {
                content.substring_char(start, j)
            };
            proof {
                let seg = content@.subrange(start as int, j as int);
                if j > start && content@[j as int - 1] == '\r' {
                    assert(seg[seg.len() - 1] == '\r');
                    assert(content@.subrange(start as int, j as int - 1) =~= chomp_cr(seg));
                } else {
                    if seg.len() > 0 {
                        assert(seg[seg.len() - 1] == content@[j as int - 1]);
                    }
                    assert(seg =~= chomp_cr(seg));
                }
            }
            out.push(line.to_owned());
            proof {
                let seg = content@.subrange(start as int, j as int);
                assert(line_views(out@) =~= line_views(old_out).push(chomp_cr(seg)));
                assert(line_views(old_out).push(chomp_cr(seg)) =~= line_views(old_out) + seq![
                    chomp_cr(seg),
                ]);
                assert(line_views(out@) + lines_spec(content@.skip(j as int + 1))
                    =~= lines_spec(content@));
            }
            start = j + 1;
        }
    }
    proof {
        assert(content@.skip(start as int) =~= Seq::<char>::empty());
        assert(lines_spec(content@.skip(start as int)) =~= Seq::<Seq<char>>::empty());
        assert(line_views(out@) =~= lines_spec(content@));
    }
    out
}

/// A text written as these lines, a line feed after each.
pub open spec fn joined_lines(ls: Seq<Seq<char>>) -> Seq<char>
    decreases ls.len(),
{
    if ls.len() == 0 {
        Seq::empty()
    } else {
        ls[0] + seq!['\n'] + joined_lines(ls.skip(1))
    }
}

/// A line that survives being written and read back: no line feed inside,
/// no trailing carriage return.
pub open spec fn clean_line(l: Seq<char>) -> bool {
    (forall|i: int| 0 <= i < l.len() ==> l[i] != '\n') && (l.len() > 0 ==> l[l.len() - 1]
        != '\r')
}

proof fn lemma_first_nl_at(s: Seq<char>, i: int, p: int)
    requires
        0 <= i <= p < s.len(),
        s[p] == '\n',
        forall|j: int| i <= j < p ==> s[j] != '\n',
    ensures
        first_nl_from(s, i) == p,
    decreases p - i,
{
    if i < p {
        lemma_first_nl_at(s, i + 1, p);
    }
}

/// Writing lines out and splitting the text again yields the same lines —
/// so a resume log, written one record per line, reads back as exactly the
/// records written.
pub proof fn lemma_lines_roundtrip(ls: Seq<Seq<char>>)
    requires
        forall|i: int| 0 <= i < ls.len() ==> clean_line(#[trigger] ls[i]),
    ensures
        lines_spec(joined_lines(ls)) == ls,
    decreases ls.len(),
{
    if ls.len() == 0 {
    } else {
        let l0 = ls[0];
        let s = joined_lines(ls);
        let p = l0.len() as int;
        assert(s.len() == l0.len() + 1 + joined_lines(ls.skip(1)).len());
        assert(s[p] == '\n');
        assert(forall|j: int| 0 <= j < p ==> s[j] == l0[j] && s[j] != '\n');
        lemma_first_nl_at(s, 0, p);
        assert(s.take(p) =~= l0);
        assert(chomp_cr(l0) == l0);
        assert(s.skip(p + 1) =~= joined_lines(ls.skip(1)));
        lemma_lines_roundtrip(ls.skip(1));
        assert(lines_spec(s) == seq![l0] + lines_spec(joined_lines(ls.skip(1))));
        assert(seq![l0] + ls.skip(1) =~= ls);
    }
}

/// A whole input list, read: its fingerprint and its item lines (the
/// `uid=` header line, when present, is consumed and is no item).
pub struct ListInput {
    pub uid: Vec<u8>,
    pub lines: Vec<String>,
}

/// The first line of a text, or the empty sequence when it has none.
pub open spec fn first_line_of(content: Seq<char>) -> Seq<char> {
    if lines_spec(content).len() > 0 {
        lines_spec(content)[0]
    } else {
        Seq::empty()
    }
}

/// Reads a whole input list: the fingerprint comes from a well-formed
/// `uid=` first line, else it is the SHA-256 digest of the content; the
/// item lines are all lines after the header, or all lines when there is
/// none. A malformed header is the input error, found before anything is
/// resolved.
pub fn prepare_list(content: &str) -> (r: Result<ListInput, crate::store::EngineError>)
    ensures
        match r {
            Ok(inp) => {
                &&& fingerprint_spec(content@, first_line_of(content@)) == Some(inp.uid@)
                &&& line_views(inp.lines@) == if starts_with(first_line_of(content@), uid_prefix()) {
                    lines_spec(content@).skip(1)
                } else {
                    lines_spec(content@)
                }
            },
            Err(e) => fingerprint_spec(content@, first_line_of(content@)) is None && e is BadUid,
        },
{
    let mut lines = split_lines(content);
    proof {
        if lines@.len() == 0 {
            reveal_strlit("");
            reveal_strlit("uid=");
            assert(uid_prefix().len() == 4);
            assert(!starts_with(first_line_of(content@), uid_prefix()));
        }
    }
    if lines.len() == 0 {
        let uid = match read_fingerprint(content, "") {
            Ok((uid, _)) => uid,
            Err(()) => {
                return Err(crate::store::EngineError::BadUid);
            },
        };
        proof {
            reveal_strlit("");
            assert(""@ =~= Seq::<char>::empty());
            assert(!starts_with(""@, uid_prefix()));
        }
        return Ok(ListInput { uid, lines });
    }
    proof {
        assert(lines@[0]@ == lines_spec(content@)[0]);
    }
    match read_fingerprint(content, lines[0].as_str()) {
        Ok((uid, header)) => {
            if header {
                let ghost before = lines@;
                lines.remove(0);
                proof {
                    assert(line_views(lines@) =~= lines_spec(content@).skip(1));
                }
                Ok(ListInput { uid, lines })
            } else {
                Ok(ListInput { uid, lines })
            }
        },
        Err(()) => Err(crate::store::EngineError::BadUid),
    }
}

} // verus!
