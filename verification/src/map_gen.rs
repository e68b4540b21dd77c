//! The map parser and the map renderer.
//!
//! A map source text is a block of rows separated by newlines; within a row,
//! cells are separated by `|`, with empty and single-blank fragments ignored,
//! so leading and trailing pipes are tolerated. Cell tokens: `x` (blocked),
//! `_` (path), `M<n>` (new-map trigger), `I<n>` (item trigger), `T(a,b,c)`
//! (teleport to map `a`, row `b`, column `c`). Unrecognized tokens parse as
//! blocked; a trigger token whose numeric payload is malformed fails the
//! parse.
use vstd::prelude::*;
use vstd::string::*;

use crate::game::MapBlockTypes;
use crate::game::Pos;

verus! {

/// A tile map: rows of map cells, row index first.
pub type TileMap = Vec<Vec<MapBlockTypes>>;

/// Why a map source text was rejected.
#[derive(Debug, PartialEq, Eq, Structural, Clone, Copy)]
pub enum ParseError {
    /// A trigger payload holds a number that does not fit in `usize`.
    PayloadOutOfRange,
    /// A token opening with `T(` does not close with `)` around exactly
    /// three comma-separated numbers.
    MalformedTeleport,
}

/// Whether `c` is a decimal digit.
pub open spec fn is_digit_char(c: char) -> bool {
    48 <= c as u32 && c as u32 <= 57
}

/// The value of the decimal digit `c`.
pub open spec fn digit_val(c: char) -> int {
    c as u32 - 48
}

/// Whether every character of `s` is a decimal digit.
pub open spec fn all_digits(s: Seq<char>) -> bool {
    forall|k: int| 0 <= k < s.len() ==> is_digit_char(#[trigger] s[k])
}

/// The number denoted by the digit string `s`, most significant digit first.
pub open spec fn digits_val(s: Seq<char>) -> int
    decreases s.len(),
{
    if s.len() == 0 {
        0
    } else {
        digits_val(s.drop_last()) * 10 + digit_val(s.last())
    }
}

/// `s` split at every occurrence of `sep`; no fragment holds `sep`, and
/// splitting a text of `n` separators yields `n + 1` fragments in order.
pub open spec fn split_on(s: Seq<char>, sep: char) -> Seq<Seq<char>>
    decreases s.len(),
{
    if s.len() == 0 {
        seq![Seq::<char>::empty()]
    } else if s[0] == sep {
        seq![Seq::<char>::empty()] + split_on(s.skip(1), sep)
    } else {
        let rest = split_on(s.skip(1), sep);
        seq![seq![s[0]] + rest[0]] + rest.skip(1)
    }
}

pub proof fn lemma_split_on_nonempty(s: Seq<char>, sep: char)
    ensures
        split_on(s, sep).len() >= 1,
    decreases s.len(),
{
    if s.len() == 0 {
    } else if s[0] == sep {
    } else {
        lemma_split_on_nonempty(s.skip(1), sep);
    }
}

pub proof fn lemma_all_digits_subrange(s: Seq<char>, a: int, b: int)
    requires
        all_digits(s),
        0 <= a <= b <= s.len(),
    ensures
        all_digits(s.subrange(a, b)),
{
    assert forall|k: int| 0 <= k < b - a implies is_digit_char(#[trigger] s.subrange(a, b)[k]) by {
        assert(s.subrange(a, b)[k] == s[a + k]);
    }
}

pub proof fn lemma_digits_val_nonneg(s: Seq<char>)
    requires
        all_digits(s),
    ensures
        digits_val(s) >= 0,
    decreases s.len(),
{
    if s.len() > 0 {
        lemma_all_digits_subrange(s, 0, s.len() - 1);
        assert(s.drop_last() =~= s.subrange(0, s.len() - 1));
        lemma_digits_val_nonneg(s.drop_last());
        assert(is_digit_char(s[s.len() - 1]));
    }
}

/// Reading more digits can only grow the denoted number.
pub proof fn lemma_digits_val_prefix_le(s: Seq<char>, k: int)
    requires
        all_digits(s),
        0 <= k <= s.len(),
    ensures
        digits_val(s.subrange(0, k)) <= digits_val(s),
    decreases s.len() - k,
{
    if k == s.len() {
        assert(s.subrange(0, k) =~= s);
    } else {
        assert(s.subrange(0, k + 1).drop_last() =~= s.subrange(0, k));
        assert(s.subrange(0, k + 1).last() == s[k]);
        lemma_all_digits_subrange(s, 0, k);
        lemma_digits_val_nonneg(s.subrange(0, k));
        assert(is_digit_char(s[k]));
        assert(digits_val(s.subrange(0, k + 1)) == 10 * digits_val(s.subrange(0, k)) + digit_val(
            s[k],
        ));
        lemma_digits_val_prefix_le(s, k + 1);
    }
}

/// Whether every character of `cs` in `[from, to)` is a decimal digit.
fn all_digits_exec(cs: &Vec<char>, from: usize, to: usize) -> (b: bool)
    requires
        from <= to,
        to <= cs@.len(),
    ensures
        b == all_digits(cs@.subrange(from as int, to as int)),
{
    let ghost s = cs@.subrange(from as int, to as int);
    let mut k: usize = from;
    while k < to
        invariant
            from <= k <= to,
            to <= cs@.len(),
            s == cs@.subrange(from as int, to as int),
            all_digits(cs@.subrange(from as int, k as int)),
        decreases to - k,
    {
        let u = cs[k] as u32;
        if u < 48 || u > 57 {
            proof {
                assert(s[k - from] == cs@[k as int]);
                assert(!is_digit_char(s[k - from]));
            }
            return false;
        }
        proof {
            assert forall|m: int| 0 <= m < k + 1 - from implies is_digit_char(
                #[trigger] cs@.subrange(from as int, k + 1 as int)[m],
            ) by {
                assert(cs@.subrange(from as int, k + 1 as int)[m] == cs@[from + m]);
                if m < k - from {
                    assert(cs@.subrange(from as int, k as int)[m] == cs@[from + m]);
                }
            }
        }
        k = k + 1;
    }
    proof {
        assert(s =~= cs@.subrange(from as int, k as int));
    }
    true
}

/// The number denoted by the digits of `cs` in `[from, to)`, if the range is
/// nonempty, all digits, and the value fits in `usize`.
fn parse_usize_digits(cs: &Vec<char>, from: usize, to: usize) -> (r: Option<usize>)
    requires
        from <= to,
        to <= cs@.len(),
        all_digits(cs@.subrange(from as int, to as int)),
    ensures
        ({
            let s = cs@.subrange(from as int, to as int);
            &&& r is Some <==> from < to && digits_val(s) <= usize::MAX
            &&& (r matches Some(v) ==> v == digits_val(s))
        }),
{
    let ghost s = cs@.subrange(from as int, to as int);
    if from == to {
        return None;
    }
    let mut v: usize = 0;
    let mut k: usize = from;
    while k < to
        invariant
            from <= k <= to,
            from < to,
            to <= cs@.len(),
            s == cs@.subrange(from as int, to as int),
            all_digits(s),
            v == digits_val(cs@.subrange(from as int, k as int)),
        decreases to - k,
    {
        proof {
            assert(s[k - from] == cs@[k as int]);
            assert(is_digit_char(s[k - from]));
        }
        let u = cs[k] as u32;
        let d: usize = (u - 48) as usize;
        proof {
            assert(cs@.subrange(from as int, k + 1 as int).drop_last() =~= cs@.subrange(
                from as int,
                k as int,
            ));
            assert(cs@.subrange(from as int, k + 1 as int).last() == cs@[k as int]);
            assert(digits_val(cs@.subrange(from as int, k + 1 as int)) == 10 * digits_val(
                cs@.subrange(from as int, k as int),
            ) + digit_val(cs@[k as int]));
        }
        if v > (usize::MAX - d) / 10 {
            proof {
                assert(10 * v + d > usize::MAX) by (nonlinear_arith)
                    requires
                        v > (usize::MAX - d) / 10,
                        d <= 9,
                ;
                assert(digits_val(cs@.subrange(from as int, k + 1 as int)) > usize::MAX);
                assert(cs@.subrange(from as int, k + 1 as int) =~= s.subrange(
                    0,
                    k + 1 - from as int,
                ));
                lemma_digits_val_prefix_le(s, k + 1 - from as int);
            }
            return None;
        }
        proof {
            assert(10 * v + d <= usize::MAX) by (nonlinear_arith)
                requires
                    v <= (usize::MAX - d) / 10,
                    d <= 9,
            ;
        }
        v = v * 10 + d;
        k = k + 1;
    }
    proof {
        assert(s =~= cs@.subrange(from as int, k as int));
    }
    Some(v)
}

/// The views of a sequence of character vectors.
pub open spec fn vecs_view(r: Seq<Vec<char>>) -> Seq<Seq<char>> {
    r.map_values(|v: Vec<char>| v@)
}

/// How a token opening with `T(` is read: it must close with `)` around
/// exactly three comma-separated digit strings, the teleport payload.
pub open spec fn spec_teleport(t: Seq<char>) -> Result<MapBlockTypes, ParseError> {
    if t.len() >= 3 && t.last() == ')' {
        let fs = split_on(t.subrange(2, t.len() - 1), ',');
        if fs.len() == 3 && fs[0].len() > 0 && fs[1].len() > 0 && fs[2].len() > 0 && all_digits(
            fs[0],
        ) && all_digits(fs[1]) && all_digits(fs[2]) {
            if digits_val(fs[0]) <= usize::MAX && digits_val(fs[1]) <= usize::MAX && digits_val(
                fs[2],
            ) <= usize::MAX {
                Ok(
                    MapBlockTypes::TeleportTrigger(
                        digits_val(fs[0]) as usize,
                        digits_val(fs[1]) as usize,
                        digits_val(fs[2]) as usize,
                    ),
                )
            } else {
                Err(ParseError::PayloadOutOfRange)
            }
        } else {
            Err(ParseError::MalformedTeleport)
        }
    } else {
        Err(ParseError::MalformedTeleport)
    }
}

/// How one cell token is classified, in rule order: `M<digits>`, `I<digits>`,
/// `T(a,b,c)`, the literal `x`, the literal `_`; any other token is blocked.
pub open spec fn spec_block_type(t: Seq<char>) -> Result<MapBlockTypes, ParseError> {
    if t.len() >= 2 && t[0] == 'M' && all_digits(t.skip(1)) {
        if digits_val(t.skip(1)) <= usize::MAX {
            Ok(MapBlockTypes::NewMapTrigger(digits_val(t.skip(1)) as usize))
        } else {
            Err(ParseError::PayloadOutOfRange)
        }
    } else if t.len() >= 2 && t[0] == 'I' && all_digits(t.skip(1)) {
        if digits_val(t.skip(1)) <= usize::MAX {
            Ok(MapBlockTypes::ItemTrigger(digits_val(t.skip(1)) as usize))
        } else {
            Err(ParseError::PayloadOutOfRange)
        }
    } else if t.len() >= 2 && t[0] == 'T' && t[1] == '(' {
        spec_teleport(t)
    } else if t == seq!['x'] {
        Ok(MapBlockTypes::NotWalkable)
    } else if t == seq!['_'] {
        Ok(MapBlockTypes::Path)
    } else {
        Ok(MapBlockTypes::NotWalkable)
    }
}

/// The characters of `cs` in `[from, to)`, copied out.
fn sub_vec(cs: &Vec<char>, from: usize, to: usize) -> (r: Vec<char>)
    requires
        from <= to,
        to <= cs@.len(),
    ensures
        r@ == cs@.subrange(from as int, to as int),
{
    let mut r: Vec<char> = Vec::new();
    let mut k: usize = from;
    while k < to
        invariant
            from <= k <= to,
            to <= cs@.len(),
            r@ == cs@.subrange(from as int, k as int),
        decreases to - k,
    {
        r.push(cs[k]);
        proof {
            assert(r@ =~= cs@.subrange(from as int, k + 1 as int));
        }
        k = k + 1;
    }
    r
}

/// Classifies the token held in `cs`.
fn block_type_of(cs: &Vec<char>) -> (r: Result<MapBlockTypes, ParseError>)
    ensures
        r == spec_block_type(cs@),
{
    let n = cs.len();
    if n >= 2 && cs[0] == 'M' && all_digits_exec(cs, 1, n) {
        proof {
            assert(cs@.subrange(1, n as int) =~= cs@.skip(1));
        }
        return match parse_usize_digits(cs, 1, n) {
            Some(v) => Ok(MapBlockTypes::NewMapTrigger(v)),
            None => Err(ParseError::PayloadOutOfRange),
        };
    }
    if n >= 2 && cs[0] == 'I' && all_digits_exec(cs, 1, n) {
        proof {
            assert(cs@.subrange(1, n as int) =~= cs@.skip(1));
        }
        return match parse_usize_digits(cs, 1, n) {
            Some(v) => Ok(MapBlockTypes::ItemTrigger(v)),
            None => Err(ParseError::PayloadOutOfRange),
        };
    }
    if n >= 2 && cs[0] == 'T' && cs[1] == '(' {
        if n >= 3 && cs[n - 1] == ')' {
            let inner = sub_vec(cs, 2, n - 1);
            let fields = split_chars(&inner, ',');
            proof {
                assert(vecs_view(fields@) == split_on(cs@.subrange(2, cs@.len() - 1), ','));
            }
            if fields.len() == 3 {
                proof {
                    assert(fields@[0]@ == vecs_view(fields@)[0]);
                    assert(fields@[1]@ == vecs_view(fields@)[1]);
                    assert(fields@[2]@ == vecs_view(fields@)[2]);
                }
                let f0 = &fields[0];
                let f1 = &fields[1];
                let f2 = &fields[2];
                let shape_ok = f0.len() > 0 && f1.len() > 0 && f2.len() > 0
                    && all_digits_exec(f0, 0, f0.len()) && all_digits_exec(f1, 0, f1.len())
                    && all_digits_exec(f2, 0, f2.len());
                proof {
                    assert(f0@.subrange(0, f0@.len() as int) =~= f0@);
                    assert(f1@.subrange(0, f1@.len() as int) =~= f1@);
                    assert(f2@.subrange(0, f2@.len() as int) =~= f2@);
                }
                if shape_ok {
                    let v0 = parse_usize_digits(f0, 0, f0.len());
                    let v1 = parse_usize_digits(f1, 0, f1.len());
                    let v2 = parse_usize_digits(f2, 0, f2.len());
                    match (v0, v1, v2) {
                        (Some(a), Some(b), Some(c)) => {
                            return Ok(MapBlockTypes::TeleportTrigger(a, b, c));
                        },
                        _ => {
                            return Err(ParseError::PayloadOutOfRange);
                        },
                    }
                } else {
                    return Err(ParseError::MalformedTeleport);
                }
            } else {
                return Err(ParseError::MalformedTeleport);
            }
        } else {
            return Err(ParseError::MalformedTeleport);
        }
    }
    if n == 1 && cs[0] == 'x' {
        proof {
            assert(cs@ =~= seq!['x']);
        }
        return Ok(MapBlockTypes::NotWalkable);
    }
    if n == 1 && cs[0] == '_' {
        proof {
            assert(cs@ =~= seq!['_']);
        }
        return Ok(MapBlockTypes::Path);
    }
    proof {
        if cs@ == seq!['x'] {
            assert(cs@.len() == 1 && cs@[0] == 'x');
        }
        if cs@ == seq!['_'] {
            assert(cs@.len() == 1 && cs@[0] == '_');
        }
    }
    Ok(MapBlockTypes::NotWalkable)
}

/// Classifies one cell token of a map source text.
pub fn get_block_type(token: &str) -> (r: Result<MapBlockTypes, ParseError>)
    ensures
        r == spec_block_type(token@),
{
    let cs = str_chars(token);
    block_type_of(&cs)
}

/// Whether a pipe-separated fragment counts as a cell: empty fragments and a
/// single blank (as left by leading, trailing or doubled pipes) do not.
pub open spec fn is_kept_field(f: Seq<char>) -> bool {
    f.len() > 0 && f != seq![' ']
}

/// The fragments of `fs` that count as cells, in order.
pub open spec fn keep_fields(fs: Seq<Seq<char>>) -> Seq<Seq<char>>
    decreases fs.len(),
{
    if fs.len() == 0 {
        Seq::empty()
    } else if is_kept_field(fs[0]) {
        seq![fs[0]] + keep_fields(fs.skip(1))
    } else {
        keep_fields(fs.skip(1))
    }
}

/// The cell tokens of one source row.
pub open spec fn spec_cells(row: Seq<char>) -> Seq<Seq<char>> {
    keep_fields(split_on(row, '|'))
}

/// The rows of a source text: newline-separated, with the final empty
/// fragment left by a trailing newline discarded.
pub open spec fn spec_lines(text: Seq<char>) -> Seq<Seq<char>> {
    let r = split_on(text, '\n');
    if r.last().len() == 0 {
        r.drop_last()
    } else {
        r
    }
}

/// How one row parses: each cell token classified in order; the first
/// malformed payload fails the row.
pub open spec fn spec_parse_row(cells: Seq<Seq<char>>) -> Result<Seq<MapBlockTypes>, ParseError>
    decreases cells.len(),
{
    if cells.len() == 0 {
        Ok(Seq::empty())
    } else {
        match spec_block_type(cells[0]) {
            Err(e) => Err(e),
            Ok(b) => match spec_parse_row(cells.skip(1)) {
                Err(e) => Err(e),
                Ok(rest) => Ok(seq![b] + rest),
            },
        }
    }
}

/// How a sequence of rows parses; the first malformed payload, in row-major
/// order, fails the map.
pub open spec fn spec_parse_rows(lines: Seq<Seq<char>>) -> Result<
    Seq<Seq<MapBlockTypes>>,
    ParseError,
>
    decreases lines.len(),
{
    if lines.len() == 0 {
        Ok(Seq::empty())
    } else {
        match spec_parse_row(spec_cells(lines[0])) {
            Err(e) => Err(e),
            Ok(row) => match spec_parse_rows(lines.skip(1)) {
                Err(e) => Err(e),
                Ok(rest) => Ok(seq![row] + rest),
            },
        }
    }
}

/// What `generate_map` yields on `text`.
pub open spec fn spec_generate_map(text: Seq<char>) -> Result<Seq<Seq<MapBlockTypes>>, ParseError> {
    spec_parse_rows(spec_lines(text))
}

/// The mathematical contents of a tile map.
pub open spec fn map_view(m: TileMap) -> Seq<Seq<MapBlockTypes>> {
    m@.map_values(|row: Vec<MapBlockTypes>| row@)
}

/// The view of a parse result.
pub open spec fn parse_result_view(r: Result<TileMap, ParseError>) -> Result<
    Seq<Seq<MapBlockTypes>>,
    ParseError,
> {
    match r {
        Ok(m) => Ok(map_view(m)),
        Err(e) => Err(e),
    }
}

/// The view of a parsed-row result.
pub open spec fn row_result_view(r: Result<Vec<MapBlockTypes>, ParseError>) -> Result<
    Seq<MapBlockTypes>,
    ParseError,
> {
    match r {
        Ok(row) => Ok(row@),
        Err(e) => Err(e),
    }
}

/// Keeps the fragments of `fields` that count as cells.
fn keep_cells(fields: Vec<Vec<char>>) -> (r: Vec<Vec<char>>)
    ensures
        vecs_view(r@) == keep_fields(vecs_view(fields@)),
{
    let ghost orig: Seq<Seq<char>> = vecs_view(fields@);
    let mut rest = fields;
    let mut out: Vec<Vec<char>> = Vec::new();
    proof {
        assert(vecs_view(rest@) =~~= orig);
        assert(vecs_view(out@) + keep_fields(vecs_view(rest@)) =~~= keep_fields(orig));
    }
    while rest.len() > 0
        invariant
            keep_fields(orig) == vecs_view(out@) + keep_fields(vecs_view(rest@)),
        decreases rest@.len(),
    {
        let ghost rest_before = vecs_view(rest@);
        let f = rest.remove(0);
        proof {
            assert(rest_before[0] == f@);
            assert(vecs_view(rest@) =~~= rest_before.skip(1));
        }
        let mut kept = true;
        if f.len() == 0 {
            kept = false;
        } else if f.len() == 1 {
            if f[0] == ' ' {
                kept = false;
                proof {
                    assert(f@ =~= seq![' ']);
                }
            } else {
                proof {
                    assert(f@ != seq![' ']);
                }
            }
        } else {
            proof {
                assert(f@.len() != 1);
                assert(f@ != seq![' ']);
            }
        }
        if kept {
            let ghost out_before = vecs_view(out@);
            out.push(f);
            proof {
                assert(vecs_view(out@) =~= out_before + seq![rest_before[0]]);
                assert(keep_fields(rest_before) == seq![rest_before[0]] + keep_fields(
                    rest_before.skip(1),
                ));
                assert(vecs_view(out@) + keep_fields(vecs_view(rest@)) =~~= keep_fields(orig));
            }
        } else {
            proof {
                assert(keep_fields(rest_before) == keep_fields(rest_before.skip(1)));
            }
        }
    }
    proof {
        assert(vecs_view(rest@) =~~= Seq::<Seq<char>>::empty());
        assert(keep_fields(vecs_view(rest@)) =~~= Seq::<Seq<char>>::empty());
        assert(vecs_view(out@) =~~= keep_fields(orig));
    }
    out
}

/// Parses the cells of one row.
fn parse_row_cells(cells: &Vec<Vec<char>>) -> (r: Result<Vec<MapBlockTypes>, ParseError>)
    ensures
        row_result_view(r) == spec_parse_row(vecs_view(cells@)),
{
    let ghost whole: Seq<Seq<char>> = vecs_view(cells@);
    let mut out: Vec<MapBlockTypes> = Vec::new();
    let mut i: usize = 0;
    proof {
        assert(vecs_view(cells@).skip(0) =~~= vecs_view(cells@));
    }
    while i < cells.len()
        invariant
            i <= cells@.len(),
            spec_parse_row(vecs_view(cells@)) == match spec_parse_row(
                vecs_view(cells@).skip(i as int),
            ) {
                Ok(rest) => Ok(out@ + rest),
                Err(e) => Err(e),
            },
        decreases cells@.len() - i,
    {
        proof {
            assert(vecs_view(cells@).skip(i as int)[0] == vecs_view(cells@)[i as int]);
            assert(vecs_view(cells@)[i as int] == cells@[i as int]@);
            assert(vecs_view(cells@).skip(i as int).skip(1) =~~= vecs_view(cells@).skip(
                i + 1 as int,
            ));
        }
        let b = match block_type_of(&cells[i]) {
            Ok(b) => b,
            Err(e) => {
                return Err(e);
            },
        };
        let ghost out_before = out@;
        out.push(b);
        proof {
            let rec = spec_parse_row(vecs_view(cells@).skip(i + 1 as int));
            if rec is Ok {
                assert(out@ + rec->Ok_0 =~= out_before + (seq![b] + rec->Ok_0));
            }
        }
        i = i + 1;
    }
    proof {
        assert(vecs_view(cells@).skip(i as int) =~~= Seq::<Seq<char>>::empty());
        assert(spec_parse_row(vecs_view(cells@).skip(i as int)) == Ok::<_, ParseError>(
            Seq::<MapBlockTypes>::empty(),
        ));
        assert(out@ + Seq::<MapBlockTypes>::empty() =~= out@);
    }
    Ok(out)
}

/// Parses a map source text into a tile map.
///
/// The text is split into rows at newlines (a trailing newline adds no row)
/// and each row into cell tokens at pipes; the first malformed trigger
/// payload, in row-major order, fails the whole parse.
pub fn generate_map(map_str: String) -> (r: Result<TileMap, ParseError>)
    ensures
        parse_result_view(r) == spec_generate_map(map_str@),
{
    let cs = str_chars(map_str.as_str());
    let mut lines = split_chars(&cs, '\n');
    proof {
        lemma_split_on_nonempty(cs@, '\n');
        assert(vecs_view(lines@).last() == lines@.last()@);
    }
    let ghost raw: Seq<Seq<char>> = vecs_view(lines@);
    if lines[lines.len() - 1].len() == 0 {
        lines.pop();
        proof {
            assert(vecs_view(lines@) =~~= raw.drop_last());
        }
    }
    let ghost ls: Seq<Seq<char>> = vecs_view(lines@);
    proof {
        assert(ls == spec_lines(map_str@));
        assert(ls.skip(0) =~~= ls);
    }
    let mut map: Vec<Vec<MapBlockTypes>> = Vec::new();
    let mut i: usize = 0;
    while i < lines.len()
        invariant
            i <= lines@.len(),
            ls == vecs_view(lines@),
            ls == spec_lines(map_str@),
            spec_parse_rows(ls) == match spec_parse_rows(ls.skip(i as int)) {
                Ok(rest) => Ok(map_view(map) + rest),
                Err(e) => Err(e),
            },
        decreases lines@.len() - i,
    {
        proof {
            assert(ls.skip(i as int)[0] == ls[i as int]);
            assert(ls[i as int] == lines@[i as int]@);
            assert(ls.skip(i as int).skip(1) =~~= ls.skip(i + 1 as int));
        }
        let fields = split_chars(&lines[i], '|');
        let cells = keep_cells(fields);
        proof {
            assert(vecs_view(cells@) == spec_cells(ls[i as int]));
        }
        let row = match parse_row_cells(&cells) {
            Ok(row) => row,
            Err(e) => {
                proof {
                    assert(spec_parse_row(spec_cells(ls.skip(i as int)[0])) == Err::<
                        Seq<MapBlockTypes>,
                        ParseError,
                    >(e));
                    assert(spec_parse_rows(ls.skip(i as int)) == Err::<
                        Seq<Seq<MapBlockTypes>>,
                        ParseError,
                    >(e));
                }
                return Err(e);
            },
        };
        let ghost map_before = map_view(map);
        map.push(row);
        proof {
            assert(map_view(map) =~~= map_before + seq![row@]);
            let rec = spec_parse_rows(ls.skip(i + 1 as int));
            if rec is Ok {
                assert(map_view(map) + rec->Ok_0 =~~= map_before + (seq![row@] + rec->Ok_0));
            }
        }
        i = i + 1;
    }
    proof {
        assert(ls.skip(i as int) =~~= Seq::<Seq<char>>::empty());
        assert(spec_parse_rows(ls.skip(i as int)) == Ok::<_, ParseError>(
            Seq::<Seq<MapBlockTypes>>::empty(),
        ));
        assert(map_view(map) + Seq::<Seq<MapBlockTypes>>::empty() =~~= map_view(map));
    }
    Ok(map)
}

/// The characters of `s`, one vector element per `char`.
fn str_chars(s: &str) -> (r: Vec<char>)
    ensures
        r@ == s@,
{
    let n: usize = s.unicode_len();
    let mut r: Vec<char> = Vec::new();
    let mut k: usize = 0;
    while k < n
        invariant
            k <= n,
            n == s@.len(),
            r@ == s@.subrange(0, k as int),
        decreases n - k,
    {
        r.push(s.get_char(k));
        proof {
            assert(r@ =~= s@.subrange(0, k + 1 as int));
        }
        k = k + 1;
    }
    proof {
        assert(r@ =~= s@);
    }
    r
}

/// `s` split at every occurrence of `sep`, as executable data.
fn split_chars(s: &Vec<char>, sep: char) -> (r: Vec<Vec<char>>)
    ensures
        vecs_view(r@) == split_on(s@, sep),
{
    let mut fields: Vec<Vec<char>> = Vec::new();
    let mut cur: Vec<char> = Vec::new();
    let mut i: usize = 0;
    proof {
        let r = split_on(s@, sep);
        lemma_split_on_nonempty(s@, sep);
        assert(s@.skip(0) =~= s@);
        assert(cur@ + r[0] =~= r[0]);
        assert(seq![r[0]] + r.skip(1) =~= r);
        assert(split_on(s@, sep) =~~= vecs_view(fields@) + seq![cur@ + r[0]] + r.skip(1));
    }
    while i < s.len()
        invariant
            i <= s@.len(),
            split_on(s@, sep) == vecs_view(fields@) + seq![cur@ + split_on(s@.skip(i as int), sep)[0]] + split_on(
                s@.skip(i as int),
                sep,
            ).skip(1),
        decreases s@.len() - i,
    {
        proof {
            assert(s@.skip(i as int)[0] == s@[i as int]);
            assert(s@.skip(i as int).skip(1) =~= s@.skip(i + 1 as int));
            lemma_split_on_nonempty(s@.skip(i + 1 as int), sep);
        }
        let c = s[i];
        if c == sep {
            let ghost old_fields = fields@;
            let ghost old_cur = cur@;
            fields.push(cur);
            cur = Vec::new();
            proof {
                let r_i = split_on(s@.skip(i as int), sep);
                let r_n = split_on(s@.skip(i + 1 as int), sep);
                assert(vecs_view(fields@) =~= vecs_view(old_fields) + seq![old_cur]);
                assert(r_i == seq![Seq::<char>::empty()] + r_n);
                assert(old_cur + r_i[0] =~= old_cur);
                assert(r_i.skip(1) =~= r_n);
                assert(cur@ + r_n[0] =~= r_n[0]);
                assert(seq![r_n[0]] + r_n.skip(1) =~= r_n);
                assert(split_on(s@, sep) == vecs_view(old_fields) + seq![old_cur + r_i[0]]
                    + r_i.skip(1));
                assert(split_on(s@, sep) =~~= vecs_view(fields@) + seq![cur@ + r_n[0]]
                    + r_n.skip(1));
            }
        } else {
            let ghost old_cur = cur@;
            cur.push(c);
            proof {
                let r_i = split_on(s@.skip(i as int), sep);
                let r_n = split_on(s@.skip(i + 1 as int), sep);
                assert(r_i == seq![seq![s@[i as int]] + r_n[0]] + r_n.skip(1));
                assert(r_i[0] == seq![s@[i as int]] + r_n[0]);
                assert(r_i.skip(1) =~= r_n.skip(1));
                assert(cur@ + r_n[0] =~= old_cur + (seq![s@[i as int]] + r_n[0]));
                assert(split_on(s@, sep) == vecs_view(fields@) + seq![old_cur + r_i[0]]
                    + r_i.skip(1));
                assert(split_on(s@, sep) =~~= vecs_view(fields@) + seq![cur@ + r_n[0]]
                    + r_n.skip(1));
            }
        }
        i = i + 1;
    }
    proof {
        assert(s@.skip(i as int) =~= Seq::<char>::empty());
        assert(split_on(s@.skip(i as int), sep) == seq![Seq::<char>::empty()]);
        assert(cur@ + Seq::<char>::empty() =~= cur@);
    }
    let ghost old_fields = fields@;
    let ghost last_cur = cur@;
    fields.push(cur);
    proof {
        assert(vecs_view(fields@) =~= vecs_view(old_fields) + seq![last_cur]);
        assert(vecs_view(fields@) =~~= split_on(s@, sep));
    }
    fields
}

/// A successful row parse has one tile per cell token, each classified by
/// `spec_block_type`.
pub proof fn lemma_parse_row_index(cells: Seq<Seq<char>>, i: int)
    requires
        spec_parse_row(cells) is Ok,
        0 <= i < cells.len(),
    ensures
        spec_parse_row(cells)->Ok_0.len() == cells.len(),
        spec_block_type(cells[i]) is Ok,
        spec_parse_row(cells)->Ok_0[i] == spec_block_type(cells[i])->Ok_0,
    decreases cells.len(),
{
    if i == 0 {
        lemma_parse_row_len(cells.skip(1));
    } else {
        assert(cells.skip(1)[i - 1] == cells[i]);
        lemma_parse_row_index(cells.skip(1), i - 1);
    }
}

/// A successful row parse has one tile per cell token.
pub proof fn lemma_parse_row_len(cells: Seq<Seq<char>>)
    requires
        spec_parse_row(cells) is Ok,
    ensures
        spec_parse_row(cells)->Ok_0.len() == cells.len(),
    decreases cells.len(),
{
    if cells.len() > 0 {
        lemma_parse_row_len(cells.skip(1));
    }
}

/// A successful map parse has one row per source line, each parsed by
/// `spec_parse_row` from that line's cells.
pub proof fn lemma_parse_rows_index(lines: Seq<Seq<char>>, j: int)
    requires
        spec_parse_rows(lines) is Ok,
        0 <= j < lines.len(),
    ensures
        spec_parse_rows(lines)->Ok_0.len() == lines.len(),
        spec_parse_row(spec_cells(lines[j])) is Ok,
        spec_parse_rows(lines)->Ok_0[j] == spec_parse_row(spec_cells(lines[j]))->Ok_0,
    decreases lines.len(),
{
    if j == 0 {
        lemma_parse_rows_len(lines.skip(1));
    } else {
        assert(lines.skip(1)[j - 1] == lines[j]);
        lemma_parse_rows_index(lines.skip(1), j - 1);
    }
}

/// A successful map parse has one row per source line.
pub proof fn lemma_parse_rows_len(lines: Seq<Seq<char>>)
    requires
        spec_parse_rows(lines) is Ok,
    ensures
        spec_parse_rows(lines)->Ok_0.len() == lines.len(),
    decreases lines.len(),
{
    if lines.len() > 0 {
        lemma_parse_rows_len(lines.skip(1));
    }
}

/// Whether `pos` names column `i` of row `j`.
pub open spec fn occupies(pos: Option<Pos>, i: int, j: int) -> bool {
    pos matches Some(p) && p.i == i && p.j == j
}

/// The two-character symbol of one cell: the occupant marker wins, blocked
/// cells show `XX`, everything else shows blanks.
pub open spec fn spec_symbol(t: MapBlockTypes, occupied: bool) -> Seq<char> {
    if occupied {
        seq!['<', '>']
    } else {
        match t {
            MapBlockTypes::NotWalkable => seq!['X', 'X'],
            _ => seq![' ', ' '],
        }
    }
}

/// The rendered text of row `j`.
pub open spec fn spec_render_row(row: Seq<MapBlockTypes>, j: int, pos: Option<Pos>) -> Seq<char>
    decreases row.len(),
{
    if row.len() == 0 {
        Seq::empty()
    } else {
        spec_render_row(row.drop_last(), j, pos) + spec_symbol(
            row.last(),
            occupies(pos, row.len() - 1, j),
        )
    }
}

/// The rendered text of a whole map: one newline-terminated line per row.
pub open spec fn spec_render(m: Seq<Seq<MapBlockTypes>>, pos: Option<Pos>) -> Seq<char>
    decreases m.len(),
{
    if m.len() == 0 {
        Seq::empty()
    } else {
        spec_render(m.drop_last(), pos) + spec_render_row(m.last(), m.len() - 1, pos)
            + seq!['\n']
    }
}

/// The view of an optional borrowed position.
pub open spec fn opt_pos_view(p: Option<&Pos>) -> Option<Pos> {
    match p {
        Some(q) => Some(*q),
        None => None,
    }
}

/// A rendered row is two characters per cell.
pub proof fn lemma_render_row_len(row: Seq<MapBlockTypes>, j: int, pos: Option<Pos>)
    ensures
        spec_render_row(row, j, pos).len() == 2 * row.len(),
    decreases row.len(),
{
    if row.len() > 0 {
        lemma_render_row_len(row.drop_last(), j, pos);
    }
}

/// Cell `i` of a rendered row occupies the two characters at offset `2 * i`.
pub proof fn lemma_render_row_index(row: Seq<MapBlockTypes>, j: int, pos: Option<Pos>, i: int)
    requires
        0 <= i < row.len(),
    ensures
        spec_render_row(row, j, pos).subrange(2 * i, 2 * i + 2) == spec_symbol(
            row[i],
            occupies(pos, i, j),
        ),
    decreases row.len(),
{
    lemma_render_row_len(row, j, pos);
    lemma_render_row_len(row.drop_last(), j, pos);
    if i == row.len() - 1 {
        assert(spec_render_row(row, j, pos).subrange(2 * i, 2 * i + 2) =~= spec_symbol(
            row[i],
            occupies(pos, i, j),
        ));
    } else {
        lemma_render_row_index(row.drop_last(), j, pos, i);
        assert(row.drop_last()[i] == row[i]);
        assert(spec_render_row(row, j, pos).subrange(2 * i, 2 * i + 2) =~= spec_render_row(
            row.drop_last(),
            j,
            pos,
        ).subrange(2 * i, 2 * i + 2));
    }
}

/// Round trip: parsing a source text and rendering the parsed map without an
/// occupant reproduces the occupancy pattern of the source. The parsed map
/// has one row per source line and one tile per cell token, and wherever the
/// source wrote `x` the rendered row shows `XX`, wherever it wrote `_` the
/// rendered row shows two blanks, at the cell's own offset.
pub proof fn lemma_parse_render_round_trip(text: Seq<char>, j: int, i: int)
    requires
        spec_generate_map(text) is Ok,
        0 <= j < spec_lines(text).len(),
        0 <= i < spec_cells(spec_lines(text)[j]).len(),
    ensures
        ({
            let m = spec_generate_map(text)->Ok_0;
            let token = spec_cells(spec_lines(text)[j])[i];
            &&& m.len() == spec_lines(text).len()
            &&& m[j].len() == spec_cells(spec_lines(text)[j]).len()
            &&& token == seq!['x'] ==> spec_render_row(m[j], j, None).subrange(2 * i, 2 * i + 2)
                == seq!['X', 'X']
            &&& token == seq!['_'] ==> spec_render_row(m[j], j, None).subrange(2 * i, 2 * i + 2)
                == seq![' ', ' ']
        }),
{
    let lines = spec_lines(text);
    let m = spec_generate_map(text)->Ok_0;
    let cells = spec_cells(lines[j]);
    let token = cells[i];
    lemma_parse_rows_index(lines, j);
    lemma_parse_row_index(cells, i);
    lemma_render_row_index(m[j], j, None, i);
    if token == seq!['x'] {
        assert(spec_block_type(token) == Ok::<MapBlockTypes, ParseError>(
            MapBlockTypes::NotWalkable,
        ));
    }
    if token == seq!['_'] {
        assert(token.len() == 1 && token[0] == '_');
        assert(spec_block_type(token) == Ok::<MapBlockTypes, ParseError>(MapBlockTypes::Path));
    }
}

/// Renders a tile map as fixed-width text, one line per row; the cell at
/// `player_pos`, if given, shows the occupant marker whatever its tile. The
/// map is not changed.
pub fn visulize_map(map: &TileMap, player_pos: Option<&Pos>) -> (r: String)
    ensures
        r@ == spec_render(map_view(*map), opt_pos_view(player_pos)),
{
    let ghost mv: Seq<Seq<MapBlockTypes>> = map_view(*map);
    let ghost pv: Option<Pos> = opt_pos_view(player_pos);
    let mut map_str = String::new();
    let mut j: usize = 0;
    proof {
        assert(mv.subrange(0, 0) =~~= Seq::<Seq<MapBlockTypes>>::empty());
    }
    while j < map.len()
        invariant
            j <= map@.len(),
            mv == map_view(*map),
            pv == opt_pos_view(player_pos),
            map_str@ == spec_render(mv.subrange(0, j as int), pv),
        decreases map@.len() - j,
    {
        let row = &map[j];
        let ghost rv: Seq<MapBlockTypes> = row@;
        proof {
            assert(mv[j as int] == rv);
            assert(rv.subrange(0, 0) =~~= Seq::<MapBlockTypes>::empty());
        }
        let mut row_str = String::new();
        let mut i: usize = 0;
        while i < row.len()
            invariant
                i <= row@.len(),
                rv == row@,
                pv == opt_pos_view(player_pos),
                row_str@ == spec_render_row(rv.subrange(0, i as int), j as int, pv),
            decreases row@.len() - i,
        {
            let occupied = match player_pos {
                Some(p) => p.j == j && p.i == i,
                None => false,
            };
            let symbol: &str = if occupied {
                "<>"
            } else {
                match row[i] {
                    MapBlockTypes::NotWalkable => "XX",
                    _ => "  ",
                }
            };
            row_str.append(symbol);
            proof {
                reveal_strlit("<>");
                reveal_strlit("XX");
                reveal_strlit("  ");
                assert(rv.subrange(0, i + 1 as int).drop_last() =~= rv.subrange(0, i as int));
                assert(rv.subrange(0, i + 1 as int).last() == rv[i as int]);
                assert(symbol@ =~= spec_symbol(rv[i as int], occupies(pv, i as int, j as int)));
                assert(row_str@ =~= spec_render_row(rv.subrange(0, i + 1 as int), j as int, pv));
            }
            i = i + 1;
        }
        map_str.append(row_str.as_str());
        map_str.append("\n");
        proof {
            reveal_strlit("\n");
            assert(rv.subrange(0, i as int) =~= rv);
            assert(mv.subrange(0, j + 1 as int).drop_last() =~= mv.subrange(0, j as int));
            assert(mv.subrange(0, j + 1 as int).last() == mv[j as int]);
            assert(map_str@ =~= spec_render(mv.subrange(0, j + 1 as int), pv));
        }
        j = j + 1;
    }
    proof {
        assert(mv.subrange(0, j as int) =~= mv);
    }
    map_str
}

} // verus!
