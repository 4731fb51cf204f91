use vstd::prelude::*;

verus! {

/// White space between the fields of a line: the space and the five ASCII
/// control characters from tab to carriage return.
pub open spec fn is_space(b: u8) -> bool {
    b == 32 || (9 <= b && b <= 13)
}

pub open spec fn is_digit(b: u8) -> bool {
    48 <= b && b <= 57
}

/// A stretch of a line, from `start` up to but not including `end`.
#[derive(Debug, Clone, Copy, PartialEq, Eq, Structural)]
pub struct Field {
    pub start: usize,
    pub end: usize,
}

/// `f` is a field of the line: a stretch without white space, not empty,
/// that cannot be made longer at either end.
pub open spec fn is_field(line: Seq<u8>, f: Field) -> bool {
    &&& f.start < f.end <= line.len()
    &&& forall|i: int| f.start <= i < f.end ==> !is_space(#[trigger] line[i])
    &&& (f.start == 0 || is_space(line[f.start - 1]))
    &&& (f.end == line.len() || is_space(line[f.end as int]))
}

/// `fields` are fields of the line, in the order of the line, and no byte
/// before `upto` that is not white space lies outside of them.
pub open spec fn are_fields_up_to(fields: Seq<Field>, line: Seq<u8>, upto: int) -> bool {
    &&& forall|k: int| 0 <= k < fields.len() ==> is_field(line, #[trigger] fields[k])
    &&& forall|j: int, k: int|
        0 <= j < k < fields.len() ==> (#[trigger] fields[j]).end < (#[trigger] fields[k]).start
    &&& forall|i: int|
        0 <= i < upto && !is_space(#[trigger] line[i]) ==> exists|k: int|
            0 <= k < fields.len() && (#[trigger] fields[k]).start <= i < fields[k].end
}

/// `fields` are the fields of the line: all of them, in order.
pub open spec fn are_fields_of(fields: Seq<Field>, line: Seq<u8>) -> bool {
    are_fields_up_to(fields, line, line.len() as int)
}

/// The fields of the line.
pub open spec fn fields_of(line: Seq<u8>) -> Seq<Field> {
    choose|fields: Seq<Field>| are_fields_of(fields, line)
}

/// Two fields of a line that share a byte are one field.
proof fn lemma_same_run(line: Seq<u8>, f: Field, g: Field, p: int)
    requires
        is_field(line, f),
        is_field(line, g),
        f.start <= p < f.end,
        g.start <= p < g.end,
    ensures
        f == g,
{
    if f.start < g.start {
        assert(!is_space(line[g.start - 1]));
    }
    if g.start < f.start {
        assert(!is_space(line[f.start - 1]));
    }
    if f.end < g.end {
        assert(!is_space(line[f.end as int]));
    }
    if g.end < f.end {
        assert(!is_space(line[g.end as int]));
    }
}

/// Every field of one list of all the fields of a line is in every other.
proof fn lemma_field_is_shared(line: Seq<u8>, a: Seq<Field>, b: Seq<Field>, k: int) -> (m: int)
    requires
        are_fields_of(a, line),
        are_fields_of(b, line),
        0 <= k < a.len(),
    ensures
        0 <= m < b.len(),
        b[m] == a[k],
{
    let f = a[k];
    assert(is_field(line, f));
    let p = f.start as int;
    assert(!is_space(line[p]));
    let m = choose|m: int| 0 <= m < b.len() && (#[trigger] b[m]).start <= p < b[m].end;
    assert(is_field(line, b[m]));
    lemma_same_run(line, f, b[m], p);
    m
}

/// Two lists of all the fields of a line agree in their first `k` fields.
proof fn lemma_same_prefix(line: Seq<u8>, a: Seq<Field>, b: Seq<Field>, k: int)
    requires
        are_fields_of(a, line),
        are_fields_of(b, line),
        0 <= k <= a.len(),
        k <= b.len(),
    ensures
        forall|j: int| 0 <= j < k ==> a[j] == b[j],
    decreases k,
{
    if k > 0 {
        lemma_same_prefix(line, a, b, k - 1);
        let i = k - 1;
        let m = lemma_field_is_shared(line, a, b, i);
        let n = lemma_field_is_shared(line, b, a, i);
        assert(is_field(line, a[i]) && is_field(line, b[i]));
        // a[i] == b[m] and b[i] == a[n]; both lists grow strictly.
        if m < i {
            assert(a[m] == b[m]);
            assert(a[m].end < a[i].start);
        }
        if n < i {
            assert(b[n] == a[n]);
            assert(b[n].end < b[i].start);
        }
        if m > i {
            assert(b[i].end < b[m].start);
            if n > i {
                assert(a[i].end < a[n].start);
            }
        }
    }
}

/// A line has exactly one list of fields.
pub proof fn law_fields_unique(line: Seq<u8>, a: Seq<Field>, b: Seq<Field>)
    requires
        are_fields_of(a, line),
        are_fields_of(b, line),
    ensures
        a == b,
        a == fields_of(line),
{
    lemma_fields_equal(line, a, b);
    assert(are_fields_of(fields_of(line), line));
    lemma_fields_equal(line, a, fields_of(line));
}

proof fn lemma_fields_equal(line: Seq<u8>, a: Seq<Field>, b: Seq<Field>)
    requires
        are_fields_of(a, line),
        are_fields_of(b, line),
    ensures
        a == b,
{
    if a.len() <= b.len() {
        lemma_same_prefix(line, a, b, a.len() as int);
        if a.len() < b.len() {
            let k = a.len() as int;
            let m = lemma_field_is_shared(line, b, a, k);
            assert(a[m] == b[m]);
            assert(is_field(line, b[m]));
            assert(b[m].end < b[k].start);
        }
    } else {
        lemma_same_prefix(line, a, b, b.len() as int);
        let k = b.len() as int;
        let m = lemma_field_is_shared(line, a, b, k);
        assert(a[m] == b[m]);
        assert(is_field(line, a[m]));
        assert(a[m].end < a[k].start);
    }
    assert(a =~= b);
}

fn is_space_byte(b: u8) -> (r: bool)
    ensures
        r == is_space(b),
{
    b == 32 || (9 <= b && b <= 13)
}

/// Splits a line into its fields at white space.
pub fn split_fields(line: &[u8]) -> (fields: Vec<Field>)
    ensures
        are_fields_of(fields@, line@),
{
    let n = line.len();
    let mut fields: Vec<Field> = Vec::new();
    let mut i: usize = 0;
    while i < n
        invariant
            n == line@.len(),
            0 <= i <= n,
            i < n ==> (i == 0 || is_space(line@[i - 1])),
            are_fields_up_to(fields@, line@, i as int),
            forall|k: int|
                0 <= k < fields@.len() ==> (#[trigger] fields@[k]).end < i || (i == n
                    && fields@[k].end == n),
        decreases n - i,
    {
        if is_space_byte(line[i]) {
            i += 1;
        } else {
            let start = i;
            assert(forall|k: int| 0 <= k < fields@.len() ==> (#[trigger] fields@[k]).end < start);
            while i < n && !is_space_byte(line[i])
                invariant
                    n == line@.len(),
                    start <= i <= n,
                    start < n,
                    !is_space(line@[start as int]),
                    forall|j: int| start <= j < i ==> !is_space(#[trigger] line@[j]),
                decreases n - i,
            {
                i += 1;
            }
            let field = Field { start, end: i };
            let ghost before = fields@;
            fields.push(field);
            proof {
                assert(is_field(line@, field));
                assert forall|k: int| 0 <= k < fields@.len() implies is_field(
                    line@,
                    #[trigger] fields@[k],
                ) by {
                    if k < before.len() {
                        assert(fields@[k] == before[k]);
                    }
                }
                assert forall|j: int, k: int| 0 <= j < k < fields@.len() implies (
                #[trigger] fields@[j]).end < (#[trigger] fields@[k]).start by {
                    assert(fields@[j] == before[j]);
                    if k < before.len() {
                        assert(fields@[k] == before[k]);
                    }
                }
                assert forall|p: int| 0 <= p < i && !is_space(#[trigger] line@[p]) implies exists|
                    k: int,
                |
                    0 <= k < fields@.len() && (#[trigger] fields@[k]).start <= p < fields@[k].end by {
                    if p < start {
                        let k = choose|k: int|
                            0 <= k < before.len() && (#[trigger] before[k]).start <= p
                                < before[k].end;
                        assert(fields@[k] == before[k]);
                    } else {
                        assert(fields@[before.len() as int] == field);
                    }
                }
            }
            if i < n {
                i += 1;
            }
        }
    }
    fields
}

/// The number that a run of decimal digits writes.
pub open spec fn decimal(digits: Seq<u8>) -> nat
    decreases digits.len(),
{
    if digits.len() == 0 {
        0
    } else {
        decimal(digits.drop_last()) * 10 + (digits.last() - 48) as nat
    }
}

pub open spec fn all_digits(text: Seq<u8>) -> bool {
    forall|i: int| 0 <= i < text.len() ==> is_digit(#[trigger] text[i])
}

/// The number that `text` writes, if it writes one that can be held: one or
/// more decimal digits, with or without a plus sign before them.
pub open spec fn index_of(text: Seq<u8>) -> Option<usize> {
    let digits = if text.len() > 0 && text[0] == 43 {
        text.skip(1)
    } else {
        text
    };
    if digits.len() > 0 && all_digits(digits) && decimal(digits) <= usize::MAX {
        Some(decimal(digits) as usize)
    } else {
        None
    }
}

/// A run of digits writes no less than any run it starts with.
proof fn lemma_decimal_grows(digits: Seq<u8>, n: int)
    requires
        0 <= n <= digits.len(),
        all_digits(digits),
    ensures
        decimal(digits.take(n)) <= decimal(digits),
    decreases digits.len() - n,
{
    if n == digits.len() {
        assert(digits.take(n) =~= digits);
    } else {
        lemma_decimal_grows(digits, n + 1);
        assert(digits.take(n + 1).drop_last() =~= digits.take(n));
        assert(is_digit(digits[n]));
        assert(digits.take(n + 1).last() == digits[n]);
    }
}

/// Where the first slash of the stretch from `from` to `to` stands, `to` if
/// it has none.
pub open spec fn slash_at(line: Seq<u8>, from: int, to: int) -> int
    decreases to - from,
{
    if from >= to {
        to
    } else if line[from] == 47 {
        from
    } else {
        slash_at(line, from + 1, to)
    }
}

/// The number of the corner that a field of a face line names: what stands
/// before the field's first slash, read as a number.
pub open spec fn corner_of(line: Seq<u8>, f: Field) -> Option<usize> {
    index_of(line.subrange(f.start as int, slash_at(line, f.start as int, f.end as int)))
}

/// Reads the number written in `line` from `start` up to `end`.
pub fn parse_index(line: &[u8], start: usize, end: usize) -> (index: Option<usize>)
    requires
        start <= end <= line@.len(),
    ensures
        index == index_of(line@.subrange(start as int, end as int)),
{
    let ghost text = line@.subrange(start as int, end as int);
    let mut i = start;
    if i < end && line[i] == 43 {
        i += 1;
    }
    let first = i;
    let ghost digits = line@.subrange(first as int, end as int);
    proof {
        if first > start {
            assert(text[0] == 43);
            assert(text.skip(1) =~= digits);
        } else {
            if text.len() > 0 {
                assert(text[0] == line@[start as int]);
            }
            assert(text =~= digits);
        }
    }
    assert(index_of(text) == (if digits.len() > 0 && all_digits(digits) && decimal(digits)
        <= usize::MAX {
        Some(decimal(digits) as usize)
    } else {
        None
    }));
    if first == end {
        return None;
    }
    let mut value: usize = 0;
    while i < end
        invariant
            first <= i <= end <= line@.len(),
            digits == line@.subrange(first as int, end as int),
            text == line@.subrange(start as int, end as int),
            index_of(text) == (if digits.len() > 0 && all_digits(digits) && decimal(digits)
                <= usize::MAX {
                Some(decimal(digits) as usize)
            } else {
                None
            }),
            all_digits(digits.take(i - first)),
            value == decimal(digits.take(i - first)),
        decreases end - i,
    {
        let b = line[i];
        proof {
            assert(digits[i - first] == b);
            assert(digits.take(i - first + 1).drop_last() =~= digits.take(i - first));
            assert(digits.take(i - first + 1).last() == b);
        }
        if b < 48 || b > 57 {
            assert(!is_digit(digits[i - first]));
            return None;
        }
        let d = (b - 48) as usize;
        if value > (usize::MAX - d) / 10 {
            proof {
                if all_digits(digits) {
                    lemma_decimal_grows(digits, i - first + 1);
                }
            }
            return None;
        }
        value = value * 10 + d;
        proof {
            assert forall|j: int| 0 <= j < i - first + 1 implies is_digit(
                #[trigger] digits.take(i - first + 1)[j],
            ) by {
                if j < i - first {
                    assert(digits.take(i - first)[j] == digits[j]);
                }
            }
        }
        i += 1;
    }
    proof {
        assert(digits.take(end - first) =~= digits);
    }
    Some(value)
}

/// What a line of a mesh file says.
#[derive(Debug)]
pub enum ObjLine {
    /// Nothing that the mesh takes: an empty line, a comment, a keyword
    /// other than `v` and `f`, or a vertex with fewer than three
    /// coordinates.
    Skip,
    /// A vertex: the three fields that hold its coordinates.
    Vertex(Field, Field, Field),
    /// A face: the numbers of its corners as the line gives them, counted
    /// from 1.
    Face(Vec<usize>),
}

/// A face line names a corner by something that is no number.
#[derive(Debug, Clone, Copy, PartialEq, Eq, Structural)]
pub struct InvalidFaceIndex {
    /// The field at fault.
    pub field: Field,
}

/// The field `f` holds exactly the one byte `b`.
pub open spec fn is_keyword(line: Seq<u8>, f: Field, b: u8) -> bool {
    f.end == f.start + 1 && line[f.start as int] == b
}

/// The corners that the fields after the first name, if each names one.
pub open spec fn corners_named(line: Seq<u8>, fields: Seq<Field>, corners: Seq<usize>) -> bool {
    &&& corners.len() == fields.len() - 1
    &&& forall|k: int|
        0 <= k < corners.len() ==> corner_of(line, fields[k + 1]) == Some(#[trigger] corners[k])
}

/// `bad` is the first field after the keyword that names no corner.
pub open spec fn first_bad_corner(line: Seq<u8>, fields: Seq<Field>, bad: Field) -> bool {
    exists|k: int|
        {
            &&& 1 <= k < fields.len()
            &&& #[trigger] fields[k] == bad
            &&& corner_of(line, bad).is_none()
            &&& forall|j: int| 1 <= j < k ==> corner_of(line, #[trigger] fields[j]).is_some()
        }
}

/// What the line with these fields says. A line whose first field is `v`
/// and that has three more is a vertex with those three for coordinates. A
/// line whose first field is `f` is a face with the corners that its other
/// fields name, and fails at the first of them that names none. Every other
/// line is skipped: an empty one, a comment, another keyword, a vertex with
/// fewer than three coordinates.
pub open spec fn reads_as(
    line: Seq<u8>,
    fields: Seq<Field>,
    parsed: Result<ObjLine, InvalidFaceIndex>,
) -> bool {
    if fields.len() > 0 && is_keyword(line, fields[0], 118) && fields.len() >= 4 {
        parsed matches Ok(ObjLine::Vertex(x, y, z)) && x == fields[1] && y == fields[2] && z
            == fields[3]
    } else if fields.len() > 0 && is_keyword(line, fields[0], 102) {
        match parsed {
            Ok(ObjLine::Face(corners)) => corners_named(line, fields, corners@),
            Err(e) => first_bad_corner(line, fields, e.field),
            _ => false,
        }
    } else {
        parsed matches Ok(ObjLine::Skip)
    }
}

/// Reads a line of a mesh file that was split into its fields.
pub fn parse_fields(line: &[u8], fields: &Vec<Field>) -> (parsed: Result<ObjLine, InvalidFaceIndex>)
    requires
        are_fields_of(fields@, line@),
    ensures
        reads_as(line@, fields@, parsed),
{
    if fields.len() == 0 {
        return Ok(ObjLine::Skip);
    }
    let head = fields[0];
    assert(is_field(line@, fields@[0]));
    if head.end - head.start != 1 {
        return Ok(ObjLine::Skip);
    }
    let keyword = line[head.start];
    if keyword == 118 {
        if fields.len() >= 4 {
            return Ok(ObjLine::Vertex(fields[1], fields[2], fields[3]));
        }
        return Ok(ObjLine::Skip);
    }
    if keyword != 102 {
        return Ok(ObjLine::Skip);
    }
    let mut corners: Vec<usize> = Vec::new();
    let mut k: usize = 1;
    while k < fields.len()
        invariant
            1 <= k <= fields@.len(),
            are_fields_of(fields@, line@),
            is_keyword(line@, fields@[0], 102),
            corners@.len() == k - 1,
            forall|j: int|
                0 <= j < corners@.len() ==> corner_of(line@, fields@[j + 1]) == Some(
                    #[trigger] corners@[j],
                ),
        decreases fields@.len() - k,
    {
        let f = fields[k];
        assert(is_field(line@, fields@[k as int]));
        let slash = find_slash(line, f.start, f.end);
        match parse_index(line, f.start, slash) {
            Some(c) => {
                corners.push(c);
            },
            None => {
                proof {
                    assert forall|j: int| 1 <= j < k implies corner_of(
                        line@,
                        #[trigger] fields@[j],
                    ).is_some() by {
                        assert(corner_of(line@, fields@[(j - 1) + 1]) == Some(corners@[j - 1]));
                    }
                }
                return Err(InvalidFaceIndex { field: f });
            },
        }
        k += 1;
    }
    Ok(ObjLine::Face(corners))
}

/// Where the first slash from `start` up to `end` stands, `end` if there is
/// none.
fn find_slash(line: &[u8], start: usize, end: usize) -> (at: usize)
    requires
        start <= end <= line@.len(),
    ensures
        at == slash_at(line@, start as int, end as int),
        start <= at <= end,
{
    let mut i = start;
    while i < end && line[i] != 47
        invariant
            start <= i <= end <= line@.len(),
            slash_at(line@, start as int, end as int) == slash_at(line@, i as int, end as int),
        decreases end - i,
    {
        i += 1;
    }
    i
}

/// Reads a line of a mesh file: splits it into its fields and reads those.
pub fn parse_line(line: &[u8]) -> (parsed: Result<ObjLine, InvalidFaceIndex>)
    ensures
        reads_as(line@, fields_of(line@), parsed),
{
    let fields = split_fields(line);
    proof {
        law_fields_unique(line@, fields@, fields@);
    }
    parse_fields(line, &fields)
}

} // verus!
