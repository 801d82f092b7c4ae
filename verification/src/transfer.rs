//! Bulk export and import of entries, over a delimited tabular text.
//!
//! One row per entry, a fixed column order (name, description, username,
//! password, url), commas between columns and a line break between rows.
//! Bytes that would collide with the delimiters are escaped inside a
//! field, so any byte string — passwords included — survives the trip;
//! the parse of an encoding is proved to give the rows back exactly.
//!
//! The exported text carries plaintext passwords by design: the caller
//! owns the warning to the user and the permissions of whatever file the
//! text lands in.

use vstd::prelude::*;

use crate::cipher::{decrypt_password, open_blob, MAX_ID_LEN, MAX_PLAINTEXT_LEN};
use crate::entries::{clone_bytes, create_entry, Entry, EntryV};
use crate::errors::TransferError;
use crate::kdf::KEY_LEN;

verus! {

/// The escape byte, a backslash.
pub const ESCAPE: u8 = 92;

/// The column delimiter, a comma.
pub const COMMA: u8 = 44;

/// The row delimiter, a line feed.
pub const NL: u8 = 10;

/// A carriage return, escaped so a row stays one physical line everywhere.
pub const CR: u8 = 13;

/// The byte that stands for an escaped comma, the letter c.
pub const CODE_COMMA: u8 = 99;

/// The byte that stands for an escaped line feed, the letter n.
pub const CODE_NL: u8 = 110;

/// The byte that stands for an escaped carriage return, the letter r.
pub const CODE_CR: u8 = 114;

/// How one byte of a field is written: delimiters and the escape byte
/// itself become two-byte escape pairs, everything else stands as it is.
pub open spec fn esc_byte(b: u8) -> Seq<u8> {
    if b == ESCAPE {
        seq![ESCAPE, ESCAPE]
    } else if b == COMMA {
        seq![ESCAPE, CODE_COMMA]
    } else if b == NL {
        seq![ESCAPE, CODE_NL]
    } else if b == CR {
        seq![ESCAPE, CODE_CR]
    } else {
        seq![b]
    }
}

/// A whole field, escaped byte by byte.
pub open spec fn esc(s: Seq<u8>) -> Seq<u8>
    decreases s.len(),
{
    if s.len() == 0 {
        Seq::empty()
    } else {
        esc_byte(s[0]) + esc(s.drop_first())
    }
}

/// What one escape code stands for, if anything.
pub open spec fn unesc_code(c: u8) -> Option<u8> {
    if c == ESCAPE {
        Some(ESCAPE)
    } else if c == CODE_COMMA {
        Some(COMMA)
    } else if c == CODE_NL {
        Some(NL)
    } else if c == CODE_CR {
        Some(CR)
    } else {
        None
    }
}

/// A field read back: escape pairs are folded to their byte, other bytes
/// stand; a dangling or unknown escape makes the field malformed.
pub open spec fn unesc(s: Seq<u8>) -> Option<Seq<u8>>
    decreases s.len(),
{
    if s.len() == 0 {
        Some(Seq::empty())
    } else if s[0] == ESCAPE {
        if s.len() < 2 {
            None
        } else {
            match unesc_code(s[1]) {
                Some(b) => match unesc(s.subrange(2, s.len() as int)) {
                    Some(t) => Some(seq![b] + t),
                    None => None,
                },
                None => None,
            }
        }
    } else {
        match unesc(s.drop_first()) {
            Some(t) => Some(seq![s[0]] + t),
            None => None,
        }
    }
}

/// No byte of `s` is `sep`.
pub open spec fn no_byte(s: Seq<u8>, sep: u8) -> bool {
    forall|i: int| 0 <= i < s.len() ==> s[i] != sep
}

/// Parts joined with a separator between neighbours.
pub open spec fn join(parts: Seq<Seq<u8>>, sep: u8) -> Seq<u8>
    decreases parts.len(),
{
    if parts.len() == 0 {
        Seq::empty()
    } else if parts.len() == 1 {
        parts[0]
    } else {
        parts[0] + seq![sep] + join(parts.drop_first(), sep)
    }
}

/// A byte string cut at every separator; always at least one part, and
/// `n` separators give `n + 1` parts.
pub open spec fn split(s: Seq<u8>, sep: u8) -> Seq<Seq<u8>>
    decreases s.len(),
{
    if s.len() == 0 {
        seq![Seq::<u8>::empty()]
    } else if s[0] == sep {
        seq![Seq::<u8>::empty()] + split(s.drop_first(), sep)
    } else {
        let rest = split(s.drop_first(), sep);
        seq![seq![s[0]] + rest[0]] + rest.drop_first()
    }
}

/// A split always has at least one part.
pub proof fn lemma_split_nonempty(s: Seq<u8>, sep: u8)
    ensures
        split(s, sep).len() >= 1,
    decreases s.len(),
{
    if s.len() != 0 {
        lemma_split_nonempty(s.drop_first(), sep);
    }
}

/// A string free of the separator splits to itself alone.
pub proof fn lemma_split_no_sep(s: Seq<u8>, sep: u8)
    requires
        no_byte(s, sep),
    ensures
        split(s, sep) == seq![s],
    decreases s.len(),
{
    if s.len() == 0 {
        assert(split(s, sep) =~~= seq![s]);
    } else {
        lemma_split_no_sep(s.drop_first(), sep);
        lemma_split_nonempty(s.drop_first(), sep);
        assert(seq![s[0]] + s.drop_first() =~= s);
        assert(split(s, sep) =~~= seq![s]);
    }
}

/// Prepending separator-free bytes to a string extends its first part and
/// leaves the rest of the split alone.
pub proof fn lemma_split_concat(a: Seq<u8>, b: Seq<u8>, sep: u8)
    requires
        no_byte(a, sep),
    ensures
        split(a + b, sep) == seq![a + split(b, sep)[0]] + split(b, sep).drop_first(),
    decreases a.len(),
{
    lemma_split_nonempty(b, sep);
    if a.len() == 0 {
        assert(a + b =~= b);
        assert(a + split(b, sep)[0] =~= split(b, sep)[0]);
        assert(seq![split(b, sep)[0]] + split(b, sep).drop_first() =~~= split(b, sep));
    } else {
        lemma_split_concat(a.drop_first(), b, sep);
        let t = a + b;
        assert(t[0] == a[0]);
        assert(t[0] != sep);
        assert(t.drop_first() =~= a.drop_first() + b);
        let rest = split(a.drop_first() + b, sep);
        lemma_split_nonempty(a.drop_first() + b, sep);
        assert(rest[0] == a.drop_first() + split(b, sep)[0]);
        assert(seq![t[0]] + rest[0] =~= a + split(b, sep)[0]);
        assert(rest.drop_first() =~~= split(b, sep).drop_first());
        assert(split(t, sep) =~~= seq![a + split(b, sep)[0]] + split(b, sep).drop_first());
    }
}

/// A separator in front opens a fresh empty part.
pub proof fn lemma_split_sep_cons(b: Seq<u8>, sep: u8)
    ensures
        split(seq![sep] + b, sep) == seq![Seq::<u8>::empty()] + split(b, sep),
{
    let t = seq![sep] + b;
    assert(t[0] == sep);
    assert(t.drop_first() =~= b);
    assert(split(t, sep) =~~= seq![Seq::<u8>::empty()] + split(b, sep));
}

/// Splitting undoes joining, for parts free of the separator.
pub proof fn lemma_split_join(parts: Seq<Seq<u8>>, sep: u8)
    requires
        parts.len() >= 1,
        forall|k: int| 0 <= k < parts.len() ==> no_byte(#[trigger] parts[k], sep),
    ensures
        split(join(parts, sep), sep) == parts,
    decreases parts.len(),
{
    if parts.len() == 1 {
        lemma_split_no_sep(parts[0], sep);
        assert(split(join(parts, sep), sep) =~~= parts);
    } else {
        let rest = parts.drop_first();
        assert(forall|k: int| 0 <= k < rest.len() ==> no_byte(#[trigger] rest[k], sep));
        lemma_split_join(rest, sep);
        let tail = seq![sep] + join(rest, sep);
        lemma_split_sep_cons(join(rest, sep), sep);
        lemma_split_concat(parts[0], tail, sep);
        assert(parts[0] + tail =~= join(parts, sep));
        assert(split(tail, sep)[0] =~= Seq::<u8>::empty());
        assert(parts[0] + split(tail, sep)[0] =~= parts[0]);
        assert(split(tail, sep).drop_first() =~~= split(join(rest, sep), sep));
        assert(split(join(parts, sep), sep) =~~= parts);
    }
}

/// Escaping distributes over concatenation.
pub proof fn lemma_esc_concat(a: Seq<u8>, b: Seq<u8>)
    ensures
        esc(a + b) == esc(a) + esc(b),
    decreases a.len(),
{
    if a.len() == 0 {
        assert(a + b =~= b);
        assert(esc(a) + esc(b) =~= esc(b));
    } else {
        lemma_esc_concat(a.drop_first(), b);
        let t = a + b;
        assert(t[0] == a[0]);
        assert(t.drop_first() =~= a.drop_first() + b);
        assert(esc_byte(a[0]) + (esc(a.drop_first()) + esc(b)) =~= (esc_byte(a[0]) + esc(
            a.drop_first(),
        )) + esc(b));
        assert(esc(a + b) =~= esc(a) + esc(b));
    }
}

/// An escaped field holds no raw comma and no raw line break.
pub proof fn lemma_esc_clean(s: Seq<u8>)
    ensures
        no_byte(esc(s), COMMA),
        no_byte(esc(s), NL),
    decreases s.len(),
{
    if s.len() != 0 {
        lemma_esc_clean(s.drop_first());
        assert forall|i: int| 0 <= i < esc(s).len() implies esc(s)[i] != COMMA && esc(s)[i]
            != NL by {
            let h = esc_byte(s[0]);
            if i < h.len() {
                assert(esc(s)[i] == h[i]);
            } else {
                assert(esc(s)[i] == esc(s.drop_first())[i - h.len()]);
            }
        }
    }
}

/// Unescaping undoes escaping: every field survives the trip exactly.
pub proof fn lemma_unesc_esc(s: Seq<u8>)
    ensures
        unesc(esc(s)) == Some(s),
    decreases s.len(),
{
    if s.len() == 0 {
        assert(unesc(esc(s)) == Some(Seq::<u8>::empty()));
        assert(Seq::<u8>::empty() =~= s);
    } else {
        lemma_unesc_esc(s.drop_first());
        let h = esc_byte(s[0]);
        let t = esc(s);
        assert(t == h + esc(s.drop_first()));
        if h.len() == 2 {
            assert(t[0] == ESCAPE);
            assert(t[1] == h[1]);
            assert(unesc_code(h[1]) == Some(s[0]));
            assert(t.subrange(2, t.len() as int) =~= esc(s.drop_first()));
            assert(seq![s[0]] + s.drop_first() =~= s);
        } else {
            assert(t[0] == s[0]);
            assert(t[0] != ESCAPE);
            assert(t.drop_first() =~= esc(s.drop_first()));
            assert(seq![s[0]] + s.drop_first() =~= s);
        }
    }
}

/// Joining one more part appends a separator and the part.
pub proof fn lemma_join_push(parts: Seq<Seq<u8>>, p: Seq<u8>, sep: u8)
    requires
        parts.len() >= 1,
    ensures
        join(parts.push(p), sep) == join(parts, sep) + seq![sep] + p,
    decreases parts.len(),
{
    if parts.len() == 1 {
        let w = parts.push(p);
        assert(w[0] == parts[0]);
        assert(w.drop_first() =~~= seq![p]);
        assert(join(w, sep) == w[0] + seq![sep] + join(w.drop_first(), sep));
        assert(join(w.drop_first(), sep) == p);
        assert(join(parts, sep) == parts[0]);
    } else {
        lemma_join_push(parts.drop_first(), p, sep);
        let w = parts.push(p);
        assert(w[0] == parts[0]);
        assert(w.drop_first() =~~= parts.drop_first().push(p));
        assert(join(w, sep) == parts[0] + seq![sep] + join(parts.drop_first().push(p), sep));
        assert(parts[0] + seq![sep] + (join(parts.drop_first(), sep) + seq![sep] + p) =~= (parts[0]
            + seq![sep] + join(parts.drop_first(), sep)) + seq![sep] + p);
    }
}

/// `no_byte` carries over concatenation.
pub proof fn lemma_no_byte_concat(a: Seq<u8>, b: Seq<u8>, sep: u8)
    requires
        no_byte(a, sep),
        no_byte(b, sep),
    ensures
        no_byte(a + b, sep),
{
    assert forall|i: int| 0 <= i < (a + b).len() implies (a + b)[i] != sep by {
        if i < a.len() {
            assert((a + b)[i] == a[i]);
        } else {
            assert((a + b)[i] == b[i - a.len()]);
        }
    }
}

/// The mathematical value of a [`Row`]: the five columns of one exported
/// entry, in their fixed order.
pub struct RowV {
    pub name: Seq<u8>,
    pub description: Seq<u8>,
    pub username: Seq<u8>,
    pub password: Seq<u8>,
    pub url: Seq<u8>,
}

/// One row of the portable representation: the plaintext columns of one
/// entry, the password among them in the clear.
#[derive(Debug)]
pub struct Row {
    pub name: Vec<u8>,
    pub description: Vec<u8>,
    pub username: Vec<u8>,
    pub password: Vec<u8>,
    pub url: Vec<u8>,
}

impl View for Row {
    type V = RowV;

    open spec fn view(&self) -> RowV {
        RowV {
            name: self.name@,
            description: self.description@,
            username: self.username@,
            password: self.password@,
            url: self.url@,
        }
    }
}

/// The five columns of a row, each escaped, in order.
pub open spec fn row_fields(r: RowV) -> Seq<Seq<u8>> {
    seq![esc(r.name), esc(r.description), esc(r.username), esc(r.password), esc(r.url)]
}

/// One encoded row: the escaped columns with commas between them.
pub open spec fn encode_row(r: RowV) -> Seq<u8> {
    esc(r.name) + seq![COMMA] + esc(r.description) + seq![COMMA] + esc(r.username) + seq![COMMA]
        + esc(r.password) + seq![COMMA] + esc(r.url)
}

/// One line read back: it must cut into exactly five columns, each of
/// which unescapes; anything else is a malformed row.
pub open spec fn parse_row(line: Seq<u8>) -> Option<RowV> {
    let fs = split(line, COMMA);
    if fs.len() == 5 && unesc(fs[0]) is Some && unesc(fs[1]) is Some && unesc(fs[2]) is Some
        && unesc(fs[3]) is Some && unesc(fs[4]) is Some {
        Some(
            RowV {
                name: unesc(fs[0]).unwrap(),
                description: unesc(fs[1]).unwrap(),
                username: unesc(fs[2]).unwrap(),
                password: unesc(fs[3]).unwrap(),
                url: unesc(fs[4]).unwrap(),
            },
        )
    } else {
        None
    }
}

/// The whole table: encoded rows with line feeds between them; no rows,
/// no bytes.
pub open spec fn encode_rows(rows: Seq<RowV>) -> Seq<u8> {
    if rows.len() == 0 {
        Seq::empty()
    } else {
        join(rows.map_values(|r: RowV| encode_row(r)), NL)
    }
}

/// The whole table read back: one parse attempt per line, in order; empty
/// input is an empty table.
pub open spec fn parse_rows(data: Seq<u8>) -> Seq<Option<RowV>> {
    if data.len() == 0 {
        Seq::empty()
    } else {
        split(data, NL).map_values(|l: Seq<u8>| parse_row(l))
    }
}

/// An encoded row is one physical line: no raw line feed survives
/// escaping, and the commas between columns are not line feeds either.
pub proof fn lemma_encode_row_no_nl(r: RowV)
    ensures
        no_byte(encode_row(r), NL),
        encode_row(r).len() >= 4,
{
    lemma_esc_clean(r.name);
    lemma_esc_clean(r.description);
    lemma_esc_clean(r.username);
    lemma_esc_clean(r.password);
    lemma_esc_clean(r.url);
    assert(no_byte(seq![COMMA], NL));
    lemma_no_byte_concat(esc(r.name), seq![COMMA], NL);
    lemma_no_byte_concat(esc(r.name) + seq![COMMA], esc(r.description), NL);
    lemma_no_byte_concat(esc(r.name) + seq![COMMA] + esc(r.description), seq![COMMA], NL);
    lemma_no_byte_concat(
        esc(r.name) + seq![COMMA] + esc(r.description) + seq![COMMA],
        esc(r.username),
        NL,
    );
    lemma_no_byte_concat(
        esc(r.name) + seq![COMMA] + esc(r.description) + seq![COMMA] + esc(r.username),
        seq![COMMA],
        NL,
    );
    lemma_no_byte_concat(
        esc(r.name) + seq![COMMA] + esc(r.description) + seq![COMMA] + esc(r.username)
            + seq![COMMA],
        esc(r.password),
        NL,
    );
    lemma_no_byte_concat(
        esc(r.name) + seq![COMMA] + esc(r.description) + seq![COMMA] + esc(r.username)
            + seq![COMMA] + esc(r.password),
        seq![COMMA],
        NL,
    );
    lemma_no_byte_concat(
        esc(r.name) + seq![COMMA] + esc(r.description) + seq![COMMA] + esc(r.username)
            + seq![COMMA] + esc(r.password) + seq![COMMA],
        esc(r.url),
        NL,
    );
}

/// An encoded row cuts at its commas into exactly its five escaped
/// columns.
pub proof fn lemma_encode_row_fields(r: RowV)
    ensures
        split(encode_row(r), COMMA) == row_fields(r),
{
    let fs = row_fields(r);
    lemma_esc_clean(r.name);
    lemma_esc_clean(r.description);
    lemma_esc_clean(r.username);
    lemma_esc_clean(r.password);
    lemma_esc_clean(r.url);
    assert(join(fs, COMMA) =~= encode_row(r)) by {
        reveal_with_fuel(join, 6);
        assert(fs.drop_first() =~~= seq![
            esc(r.description),
            esc(r.username),
            esc(r.password),
            esc(r.url),
        ]);
        assert(fs.drop_first().drop_first() =~~= seq![
            esc(r.username),
            esc(r.password),
            esc(r.url),
        ]);
        assert(fs.drop_first().drop_first().drop_first() =~~= seq![esc(r.password), esc(r.url)]);
        assert(fs.drop_first().drop_first().drop_first().drop_first() =~~= seq![esc(r.url)]);
    }
    lemma_split_join(fs, COMMA);
}

/// A row survives the trip: parsing its encoding gives it back exactly.
pub proof fn lemma_parse_encode_row(r: RowV)
    ensures
        parse_row(encode_row(r)) == Some(r),
{
    lemma_encode_row_fields(r);
    lemma_unesc_esc(r.name);
    lemma_unesc_esc(r.description);
    lemma_unesc_esc(r.username);
    lemma_unesc_esc(r.password);
    lemma_unesc_esc(r.url);
    assert(parse_row(encode_row(r)) == Some(r)) by {
        let fs = split(encode_row(r), COMMA);
        assert(fs[0] == esc(r.name));
        assert(fs[1] == esc(r.description));
        assert(fs[2] == esc(r.username));
        assert(fs[3] == esc(r.password));
        assert(fs[4] == esc(r.url));
    }
}

/// A whole table survives the trip: parsing an encoding yields every row
/// back, each well-formed, in order. This is the format half of the
/// export/import round trip; re-encryption is the cipher's half.
pub proof fn lemma_rows_round_trip(rows: Seq<RowV>)
    ensures
        parse_rows(encode_rows(rows)) == rows.map_values(|r: RowV| Some(r)),
{
    if rows.len() == 0 {
        assert(parse_rows(encode_rows(rows)) =~~= rows.map_values(|r: RowV| Some(r)));
    } else {
        let lines = rows.map_values(|r: RowV| encode_row(r));
        assert forall|k: int| 0 <= k < lines.len() implies no_byte(#[trigger] lines[k], NL) by {
            lemma_encode_row_no_nl(rows[k]);
        }
        lemma_encode_row_no_nl(rows[0]);
        assert(join(lines, NL).len() >= 1) by {
            if lines.len() == 1 {
                assert(join(lines, NL) == lines[0]);
            } else {
                assert(join(lines, NL) == lines[0] + seq![NL] + join(lines.drop_first(), NL));
            }
        }
        lemma_split_join(lines, NL);
        assert(parse_rows(encode_rows(rows)) =~~= rows.map_values(|r: RowV| Some(r))) by {
            assert forall|k: int| 0 <= k < rows.len() implies parse_rows(encode_rows(rows))[k]
                == Some(rows[k]) by {
                lemma_parse_encode_row(rows[k]);
            }
        }
    }
}

/// Appends the bytes of `e` to `out`.
fn append_bytes(out: &mut Vec<u8>, e: &Vec<u8>)
    ensures
        final(out)@ == old(out)@ + e@,
{
    let ghost base = out@;
    let mut i: usize = 0;
    while i < e.len()
        invariant
            i <= e@.len(),
            out@ == base + e@.subrange(0, i as int),
        decreases e@.len() - i,
    {
        out.push(e[i]);
        proof {
            assert(e@.subrange(0, i + 1) == e@.subrange(0, i as int).push(e@[i as int]));
        }
        i = i + 1;
    }
    proof {
        assert(e@.subrange(0, e@.len() as int) =~= e@);
    }
}

/// Escapes one field for the tabular text.
pub fn escape_bytes(f: &Vec<u8>) -> (r: Vec<u8>)
    ensures
        r@ == esc(f@),
{
    let mut out: Vec<u8> = Vec::new();
    let mut i: usize = 0;
    while i < f.len()
        invariant
            i <= f@.len(),
            out@ == esc(f@.subrange(0, i as int)),
        decreases f@.len() - i,
    {
        let b = f[i];
        if b == ESCAPE {
            out.push(ESCAPE);
            out.push(ESCAPE);
        } else if b == COMMA {
            out.push(ESCAPE);
            out.push(CODE_COMMA);
        } else if b == NL {
            out.push(ESCAPE);
            out.push(CODE_NL);
        } else if b == CR {
            out.push(ESCAPE);
            out.push(CODE_CR);
        } else {
            out.push(b);
        }
        proof {
            lemma_esc_concat(f@.subrange(0, i as int), seq![f@[i as int]]);
            assert(f@.subrange(0, i + 1) =~= f@.subrange(0, i as int) + seq![f@[i as int]]);
            let s = seq![f@[i as int]];
            assert(s.len() == 1);
            assert(s[0] == f@[i as int]);
            assert(s.drop_first() =~= Seq::<u8>::empty());
            assert(esc(Seq::<u8>::empty()) == Seq::<u8>::empty());
            assert(esc(s) == esc_byte(s[0]) + esc(s.drop_first()));
            assert(esc(s) =~= esc_byte(f@[i as int]));
            assert(out@ =~= esc(f@.subrange(0, i as int)) + esc_byte(f@[i as int]));
        }
        i = i + 1;
    }
    proof {
        assert(f@.subrange(0, f@.len() as int) =~= f@);
    }
    out
}

/// Unescapes one field of the tabular text; a dangling or unknown escape
/// yields nothing.
pub fn unescape_bytes(f: &Vec<u8>) -> (r: Option<Vec<u8>>)
    ensures
        r matches Some(v) ==> unesc(f@) == Some(v@),
        r is None ==> unesc(f@) is None,
{
    let mut out: Vec<u8> = Vec::new();
    let mut i: usize = 0;
    proof {
        assert(f@.subrange(0, f@.len() as int) =~= f@);
    }
    while i < f.len()
        invariant
            i <= f@.len(),
            unesc(f@) == (match unesc(f@.subrange(i as int, f@.len() as int)) {
                Some(t) => Some(out@ + t),
                None => None::<Seq<u8>>,
            }),
        decreases f@.len() - i,
    {
        let ghost si = f@.subrange(i as int, f@.len() as int);
        let b = f[i];
        proof {
            assert(si[0] == f@[i as int]);
        }
        if b == ESCAPE {
            if i + 1 >= f.len() {
                proof {
                    assert(si.len() == 1);
                    assert(unesc(si) is None);
                }
                return None;
            }
            let c = f[i + 1];
            proof {
                assert(si.len() >= 2);
                assert(si[1] == f@[i + 1]);
                assert(si.subrange(2, si.len() as int) =~= f@.subrange(
                    i + 2,
                    f@.len() as int,
                ));
            }
            let d: u8;
            if c == ESCAPE {
                d = ESCAPE;
            } else if c == CODE_COMMA {
                d = COMMA;
            } else if c == CODE_NL {
                d = NL;
            } else if c == CODE_CR {
                d = CR;
            } else {
                proof {
                    assert(unesc_code(si[1]) is None);
                    assert(unesc(si) is None);
                }
                return None;
            }
            let ghost old_out = out@;
            out.push(d);
            proof {
                assert(unesc_code(si[1]) == Some(d));
                let rest = f@.subrange(i + 2, f@.len() as int);
                if unesc(rest) is Some {
                    let t = unesc(rest).unwrap();
                    assert(unesc(si) == Some(seq![d] + t));
                    assert(old_out + (seq![d] + t) =~= out@ + t);
                } else {
                    assert(unesc(si) is None);
                }
            }
            i = i + 2;
        } else {
            let ghost old_out = out@;
            out.push(b);
            proof {
                assert(si.drop_first() =~= f@.subrange(i + 1, f@.len() as int));
                let rest = f@.subrange(i + 1, f@.len() as int);
                if unesc(rest) is Some {
                    let t = unesc(rest).unwrap();
                    assert(unesc(si) == Some(seq![b] + t));
                    assert(old_out + (seq![b] + t) =~= out@ + t);
                } else {
                    assert(unesc(si) is None);
                }
            }
            i = i + 1;
        }
    }
    proof {
        assert(f@.subrange(i as int, f@.len() as int) =~= Seq::<u8>::empty());
        assert(unesc(Seq::<u8>::empty()) == Some(Seq::<u8>::empty()));
        assert(out@ + Seq::<u8>::empty() =~= out@);
    }
    Some(out)
}

/// Cuts a byte string at every separator.
pub fn split_bytes(s: &Vec<u8>, sep: u8) -> (r: Vec<Vec<u8>>)
    ensures
        r@.len() == split(s@, sep).len(),
        forall|k: int| 0 <= k < r@.len() ==> r@[k]@ == split(s@, sep)[k],
{
    let mut acc: Vec<Vec<u8>> = Vec::new();
    let mut cur: Vec<u8> = Vec::new();
    let mut i: usize = 0;
    proof {
        lemma_split_nonempty(s@, sep);
        assert(s@.subrange(0, s@.len() as int) =~= s@);
        let f0 = split(s@, sep);
        assert(acc@.map_values(|v: Vec<u8>| v@) + seq![cur@ + f0[0]] + f0.drop_first() =~~= f0);
    }
    while i < s.len()
        invariant
            i <= s@.len(),
            split(s@, sep) == acc@.map_values(|v: Vec<u8>| v@) + seq![
                cur@ + split(s@.subrange(i as int, s@.len() as int), sep)[0],
            ] + split(s@.subrange(i as int, s@.len() as int), sep).drop_first(),
        decreases s@.len() - i,
    {
        let ghost si = s@.subrange(i as int, s@.len() as int);
        let ghost sn = s@.subrange(i + 1, s@.len() as int);
        let b = s[i];
        proof {
            assert(si[0] == s@[i as int]);
            assert(si.drop_first() =~= sn);
            lemma_split_nonempty(si, sep);
            lemma_split_nonempty(sn, sep);
        }
        if b == sep {
            let ghost old_acc = acc@;
            let ghost old_cur = cur@;
            let done = cur;
            cur = Vec::new();
            acc.push(done);
            proof {
                let fi = split(si, sep);
                let fn_ = split(sn, sep);
                assert(fi == seq![Seq::<u8>::empty()] + fn_);
                assert(fi[0] =~= Seq::<u8>::empty());
                assert(old_cur + fi[0] =~= old_cur);
                assert(fi.drop_first() =~~= fn_);
                assert(acc@.map_values(|v: Vec<u8>| v@) =~~= old_acc.map_values(
                    |v: Vec<u8>| v@,
                ).push(old_cur));
                assert(old_acc.map_values(|v: Vec<u8>| v@) + seq![old_cur] + fn_ =~~= old_acc.map_values(
                    |v: Vec<u8>| v@,
                ).push(old_cur) + seq![cur@ + fn_[0]] + fn_.drop_first());
            }
        } else {
            let ghost old_cur = cur@;
            cur.push(b);
            proof {
                let fi = split(si, sep);
                let fn_ = split(sn, sep);
                assert(fi == seq![seq![si[0]] + fn_[0]] + fn_.drop_first());
                assert(old_cur + fi[0] =~= cur@ + fn_[0]);
                assert(fi.drop_first() =~~= fn_.drop_first());
            }
        }
        i = i + 1;
    }
    proof {
        let se = s@.subrange(i as int, s@.len() as int);
        assert(se =~= Seq::<u8>::empty());
        assert(split(se, sep) == seq![Seq::<u8>::empty()]);
        assert(cur@ + split(se, sep)[0] =~= cur@);
        assert(split(se, sep).drop_first() =~~= Seq::<Seq<u8>>::empty());
    }
    let ghost old_acc = acc@;
    let ghost final_cur = cur@;
    acc.push(cur);
    proof {
        assert(acc@.map_values(|v: Vec<u8>| v@) =~~= old_acc.map_values(|v: Vec<u8>| v@).push(
            final_cur,
        ));
        assert(old_acc.map_values(|v: Vec<u8>| v@) + seq![final_cur]
            + Seq::<Seq<u8>>::empty() =~~= old_acc.map_values(|v: Vec<u8>| v@).push(final_cur));
    }
    acc
}

/// Reads one line of the tabular text as a row, if it is well-formed.
pub fn parse_line(line: &Vec<u8>) -> (r: Option<Row>)
    ensures
        r matches Some(row) ==> parse_row(line@) == Some(row@),
        r is None ==> parse_row(line@) is None,
{
    let fs = split_bytes(line, COMMA);
    if fs.len() != 5 {
        return None;
    }
    let name = match unescape_bytes(&fs[0]) {
        Some(v) => v,
        None => {
            return None;
        },
    };
    let description = match unescape_bytes(&fs[1]) {
        Some(v) => v,
        None => {
            return None;
        },
    };
    let username = match unescape_bytes(&fs[2]) {
        Some(v) => v,
        None => {
            return None;
        },
    };
    let password = match unescape_bytes(&fs[3]) {
        Some(v) => v,
        None => {
            return None;
        },
    };
    let url = match unescape_bytes(&fs[4]) {
        Some(v) => v,
        None => {
            return None;
        },
    };
    let row = Row { name, description, username, password, url };
    proof {
        assert(parse_row(line@) == Some(row@));
    }
    Some(row)
}

/// Encodes one row as one line.
pub fn encode_line(row: &Row) -> (r: Vec<u8>)
    ensures
        r@ == encode_row(row@),
{
    let mut out = escape_bytes(&row.name);
    out.push(COMMA);
    let e1 = escape_bytes(&row.description);
    append_bytes(&mut out, &e1);
    out.push(COMMA);
    let e2 = escape_bytes(&row.username);
    append_bytes(&mut out, &e2);
    out.push(COMMA);
    let e3 = escape_bytes(&row.password);
    append_bytes(&mut out, &e3);
    out.push(COMMA);
    let e4 = escape_bytes(&row.url);
    append_bytes(&mut out, &e4);
    proof {
        assert(out@ =~= encode_row(row@));
    }
    out
}

/// Encodes a table of rows as the portable text.
pub fn encode_table(rows: &Vec<Row>) -> (r: Vec<u8>)
    ensures
        r@ == encode_rows(rows@.map_values(|x: Row| x@)),
{
    let mut out: Vec<u8> = Vec::new();
    let mut i: usize = 0;
    proof {
        assert(rows@.subrange(0, 0).map_values(|x: Row| x@) =~~= Seq::<RowV>::empty());
    }
    while i < rows.len()
        invariant
            i <= rows@.len(),
            out@ == encode_rows(rows@.subrange(0, i as int).map_values(|x: Row| x@)),
        decreases rows@.len() - i,
    {
        let ghost pv = rows@.subrange(0, i as int).map_values(|x: Row| x@);
        if i > 0 {
            out.push(NL);
        }
        let e = encode_line(&rows[i]);
        append_bytes(&mut out, &e);
        proof {
            let pv1 = rows@.subrange(0, i + 1).map_values(|x: Row| x@);
            assert(pv1 =~~= pv.push(rows@[i as int]@));
            let lines = pv.map_values(|r: RowV| encode_row(r));
            let lines1 = pv1.map_values(|r: RowV| encode_row(r));
            assert(lines1 =~~= lines.push(encode_row(rows@[i as int]@)));
            if i == 0 {
                assert(lines1.len() == 1);
                assert(join(lines1, NL) == lines1[0]);
                assert(out@ =~= encode_row(rows@[0]@));
            } else {
                lemma_join_push(lines, encode_row(rows@[i as int]@), NL);
                assert(out@ =~= join(lines, NL) + seq![NL] + encode_row(rows@[i as int]@));
            }
        }
        i = i + 1;
    }
    proof {
        assert(rows@.subrange(0, rows@.len() as int) =~= rows@);
    }
    out
}

/// The row one entry exports to under a master key: its plaintext columns
/// and its decrypted password.
pub open spec fn export_row_of(master_key: Seq<u8>, e: EntryV) -> RowV {
    RowV {
        name: e.name,
        description: e.description,
        username: e.username,
        password: open_blob(master_key, e.id, e.master_id, e.password_blob).unwrap(),
        url: e.url,
    }
}

/// Exports every entry's columns, passwords decrypted, as the portable
/// text — all of them, or none.
///
/// On the first entry whose blob does not open under this master key the
/// whole export fails with that entry's identifier: integrity over best
/// effort, and no silent skipping. The produced text is unencrypted by
/// design; the caller owns the warning and the file permissions.
pub fn export_entries(master_key: &Vec<u8>, entries: &Vec<Entry>) -> (r: Result<
    Vec<u8>,
    TransferError,
>)
    requires
        master_key@.len() == KEY_LEN,
        forall|k: int| 0 <= k < entries@.len() ==> (#[trigger] entries@[k]).wf(),
    ensures
        r matches Ok(data) ==> (forall|k: int|
            0 <= k < entries@.len() ==> open_blob(
                master_key@,
                (#[trigger] entries@[k])@.id,
                entries@[k]@.master_id,
                entries@[k]@.password_blob,
            ) is Some) && data@ == encode_rows(
            entries@.map_values(|e: Entry| export_row_of(master_key@, e@)),
        ),
        r matches Err(TransferError::PartialFailure(id)) ==> exists|k: int|
            0 <= k < entries@.len() && (#[trigger] entries@[k])@.id == id@ && open_blob(
                master_key@,
                entries@[k]@.id,
                entries@[k]@.master_id,
                entries@[k]@.password_blob,
            ) is None && (forall|j: int|
                0 <= j < k ==> open_blob(
                    master_key@,
                    (#[trigger] entries@[j])@.id,
                    entries@[j]@.master_id,
                    entries@[j]@.password_blob,
                ) is Some),
{
    let mut rows: Vec<Row> = Vec::new();
    let mut i: usize = 0;
    while i < entries.len()
        invariant
            master_key@.len() == KEY_LEN,
            forall|k: int| 0 <= k < entries@.len() ==> (#[trigger] entries@[k]).wf(),
            i <= entries@.len(),
            forall|k: int|
                0 <= k < i ==> open_blob(
                    master_key@,
                    (#[trigger] entries@[k])@.id,
                    entries@[k]@.master_id,
                    entries@[k]@.password_blob,
                ) is Some,
            rows@.len() == i,
            forall|k: int|
                0 <= k < i ==> (#[trigger] rows@[k])@ == export_row_of(master_key@, entries@[k]@),
        decreases entries@.len() - i,
    {
        let e = &entries[i];
        let pw = match decrypt_password(master_key, &e.id, &e.master_id, &e.password_blob) {
            Ok(p) => p,
            Err(_) => {
                return Err(TransferError::PartialFailure(clone_bytes(&e.id)));
            },
        };
        rows.push(
            Row {
                name: clone_bytes(&e.name),
                description: clone_bytes(&e.description),
                username: clone_bytes(&e.username),
                password: pw,
                url: clone_bytes(&e.url),
            },
        );
        i = i + 1;
    }
    let data = encode_table(&rows);
    proof {
        assert(rows@.map_values(|x: Row| x@) =~~= entries@.map_values(
            |e2: Entry| export_row_of(master_key@, e2@),
        ));
    }
    Ok(data)
}

/// What the import made of one well-formed row: a fresh entry under the
/// minted identifier, owned by this master, its columns carried over and
/// its password re-encrypted bound to the new pair.
pub open spec fn imported_ok(
    master_key: Seq<u8>,
    master_id: Seq<u8>,
    data: Seq<u8>,
    ids: Seq<Vec<u8>>,
    i: int,
    e: EntryV,
) -> bool {
    &&& parse_rows(data)[i] is Some
    &&& e.id == ids[i]@
    &&& e.master_id == master_id
    &&& e.name == parse_rows(data)[i].unwrap().name
    &&& e.description == parse_rows(data)[i].unwrap().description
    &&& e.username == parse_rows(data)[i].unwrap().username
    &&& e.url == parse_rows(data)[i].unwrap().url
    &&& open_blob(master_key, ids[i]@, master_id, e.password_blob) == Some(
        parse_rows(data)[i].unwrap().password,
    )
}

/// What an import reports: the entries created, the row ordinals they
/// came from, and the row ordinals that failed — every row accounted for,
/// none dropped in silence. Ordinals count from zero.
pub struct ImportReport {
    pub created: Vec<Entry>,
    pub created_rows: Vec<usize>,
    pub failed_rows: Vec<usize>,
}

/// Membership in a pushed sequence.
proof fn lemma_contains_push(s: Seq<usize>, v: usize, x: usize)
    ensures
        s.push(v).contains(x) <==> (s.contains(x) || x == v),
{
    let s2 = s.push(v);
    if s.contains(x) {
        let idx = choose|idx: int| 0 <= idx < s.len() && s[idx] == x;
        assert(s2[idx] == x);
    }
    if x == v {
        assert(s2[s.len() as int] == x);
    }
    if s2.contains(x) {
        let idx = choose|idx: int| 0 <= idx < s2.len() && s2[idx] == x;
        if idx < s.len() {
            assert(s[idx] == x);
        }
    }
}

/// Imports rows of the portable text under fresh identifiers the storage
/// collaborator minted — identifiers are never taken from the import
/// source.
///
/// Every row is tried: a malformed row, an oversized password or a failed
/// encryption marks its ordinal failed, and each well-formed row becomes
/// a fresh entry whose password is re-encrypted bound to its new
/// identifier. Each row ordinal lands in exactly one of the two lists, in
/// order, so partial failure is reported, never silent.
pub fn import_entries(
    master_key: &Vec<u8>,
    master_id: &Vec<u8>,
    data: &Vec<u8>,
    ids: &Vec<Vec<u8>>,
) -> (r: ImportReport)
    requires
        master_key@.len() == KEY_LEN,
        master_id@.len() <= MAX_ID_LEN,
        ids@.len() == parse_rows(data@).len(),
        forall|k: int| 0 <= k < ids@.len() ==> (#[trigger] ids@[k])@.len() <= MAX_ID_LEN,
    ensures
        r.created@.len() == r.created_rows@.len(),
        forall|j: int|
            0 <= j < r.created_rows@.len() ==> (#[trigger] r.created_rows@[j]) < parse_rows(
                data@,
            ).len(),
        forall|j: int|
            0 <= j < r.failed_rows@.len() ==> (#[trigger] r.failed_rows@[j]) < parse_rows(
                data@,
            ).len(),
        forall|j1: int, j2: int|
            0 <= j1 < j2 < r.created_rows@.len() ==> r.created_rows@[j1] < r.created_rows@[j2],
        forall|j1: int, j2: int|
            0 <= j1 < j2 < r.failed_rows@.len() ==> r.failed_rows@[j1] < r.failed_rows@[j2],
        forall|k: usize|
            (k as int) < parse_rows(data@).len() ==> (r.created_rows@.contains(k)
                <==> !r.failed_rows@.contains(k)),
        forall|j: int|
            0 <= j < r.created_rows@.len() ==> imported_ok(
                master_key@,
                master_id@,
                data@,
                ids@,
                (#[trigger] r.created_rows@[j]) as int,
                r.created@[j]@,
            ),
{
    let mut created: Vec<Entry> = Vec::new();
    let mut created_rows: Vec<usize> = Vec::new();
    let mut failed_rows: Vec<usize> = Vec::new();
    if data.len() == 0 {
        return ImportReport { created, created_rows, failed_rows };
    }
    let lines = split_bytes(data, NL);
    let n = lines.len();
    proof {
        assert(parse_rows(data@).len() == n);
    }
    let mut i: usize = 0;
    while i < n
        invariant
            master_key@.len() == KEY_LEN,
            master_id@.len() <= MAX_ID_LEN,
            data@.len() > 0,
            n == lines@.len(),
            n == parse_rows(data@).len(),
            ids@.len() == n,
            forall|k: int| 0 <= k < ids@.len() ==> (#[trigger] ids@[k])@.len() <= MAX_ID_LEN,
            forall|k: int| 0 <= k < n ==> (#[trigger] lines@[k])@ == split(data@, NL)[k],
            i <= n,
            created@.len() == created_rows@.len(),
            forall|j: int| 0 <= j < created_rows@.len() ==> (#[trigger] created_rows@[j]) < i,
            forall|j: int| 0 <= j < failed_rows@.len() ==> (#[trigger] failed_rows@[j]) < i,
            forall|j1: int, j2: int|
                0 <= j1 < j2 < created_rows@.len() ==> created_rows@[j1] < created_rows@[j2],
            forall|j1: int, j2: int|
                0 <= j1 < j2 < failed_rows@.len() ==> failed_rows@[j1] < failed_rows@[j2],
            forall|k: usize|
                (k as int) < i ==> (created_rows@.contains(k) <==> !failed_rows@.contains(k)),
            forall|j: int|
                0 <= j < created_rows@.len() ==> imported_ok(
                    master_key@,
                    master_id@,
                    data@,
                    ids@,
                    (#[trigger] created_rows@[j]) as int,
                    created@[j]@,
                ),
        decreases n - i,
    {
        let ghost old_created_rows = created_rows@;
        let ghost old_failed_rows = failed_rows@;
        let mut placed_ok = false;
        proof {
            assert(parse_rows(data@)[i as int] == parse_row(lines@[i as int]@));
        }
        match parse_line(&lines[i]) {
            None => {
                failed_rows.push(i);
            },
            Some(row) => {
                let ghost rowv = row@;
                let Row { name, description, username, password, url } = row;
                if password.len() > MAX_PLAINTEXT_LEN {
                    failed_rows.push(i);
                } else {
                    match create_entry(
                        master_key,
                        master_id,
                        &ids[i],
                        name,
                        description,
                        username,
                        url,
                        &password,
                    ) {
                        Ok(e) => {
                            created.push(e);
                            created_rows.push(i);
                            placed_ok = true;
                        },
                        Err(_) => {
                            failed_rows.push(i);
                        },
                    }
                }
            },
        }
        proof {
            if placed_ok {
                assert(created_rows@ == old_created_rows.push(i));
                assert(failed_rows@ == old_failed_rows);
            } else {
                assert(failed_rows@ == old_failed_rows.push(i));
                assert(created_rows@ == old_created_rows);
            }
            assert forall|k: usize| (k as int) < i + 1 implies (created_rows@.contains(k)
                <==> !failed_rows@.contains(k)) by {
                lemma_contains_push(old_created_rows, i, k);
                lemma_contains_push(old_failed_rows, i, k);
                if (k as int) < i {
                    assert(old_created_rows.contains(k) <==> !old_failed_rows.contains(k));
                } else {
                    assert(!old_created_rows.contains(k));
                    assert(!old_failed_rows.contains(k));
                }
            }
        }
        i = i + 1;
    }
    ImportReport { created, created_rows, failed_rows }
}

/// Export/import round trip, the format's half: the text a successful
/// export of these entries produces parses back into exactly one
/// well-formed row per entry, in order, carrying each entry's columns and
/// its decrypted password. The cipher's half — that re-encrypting such a
/// row under a fresh identifier yields a blob that opens to the same
/// password — is what `import_entries` ensures of every created entry.
pub proof fn lemma_export_parses_back(master_key: Seq<u8>, entries: Seq<EntryV>)
    ensures
        parse_rows(encode_rows(entries.map_values(|e: EntryV| export_row_of(master_key, e))))
            == entries.map_values(|e: EntryV| Some(export_row_of(master_key, e))),
{
    let rows = entries.map_values(|e: EntryV| export_row_of(master_key, e));
    lemma_rows_round_trip(rows);
    assert(rows.map_values(|r: RowV| Some(r)) =~~= entries.map_values(
        |e: EntryV| Some(export_row_of(master_key, e)),
    ));
}

/// Counts the rows the tabular text holds, well-formed or not.
pub fn count_rows(data: &Vec<u8>) -> (n: usize)
    ensures
        n == parse_rows(data@).len(),
{
    if data.len() == 0 {
        0
    } else {
        let parts = split_bytes(data, NL);
        parts.len()
    }
}

} // verus!
