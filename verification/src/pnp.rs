//! Place-and-pick data: where each part sits on the board.
//!
//! The coordinates are kept as they are written, without their unit. A
//! list of changes between two sets of positions can be drawn up.
use vstd::prelude::*;
use crate::collections::{Dict, Key};
use crate::csv_util::{
    csv_rows, find_column_idx, find_header_in_rows, first_column, is_header_row, is_one_of,
    read_rows, row_view, rows_view, separator_of,
};
use crate::model::{opt_view, texts};
use crate::names::Designator;
use crate::text::{from_chars, str_eq, to_chars};

verus! {

/// The side of the board.
#[derive(Debug, PartialEq, Eq, Copy, Clone, Structural)]
pub enum Side {
    Top,
    Bottom,
}

/// The position of a part, as written.
#[derive(Debug)]
pub struct ComponentPosition {
    pub x_str: String,
    pub y_str: String,
    pub rotation_str: String,
    pub side: Side,
    pub value: Option<String>,
    pub package: Option<String>,
}

/// The position of a part, in characters.
pub struct ComponentPositionView {
    pub x: Seq<char>,
    pub y: Seq<char>,
    pub rotation: Seq<char>,
    pub side: Side,
    pub value: Option<Seq<char>>,
    pub package: Option<Seq<char>>,
}

impl View for ComponentPosition {
    type V = ComponentPositionView;

    open spec fn view(&self) -> ComponentPositionView {
        ComponentPositionView {
            x: self.x_str@,
            y: self.y_str@,
            rotation: self.rotation_str@,
            side: self.side,
            value: opt_view(self.value),
            package: opt_view(self.package),
        }
    }
}

impl ComponentPosition {
    /// Whether two positions are written the same.
    pub fn same(&self, other: &ComponentPosition) -> (r: bool)
        ensures
            r == (self@ == other@),
    {
        str_eq(self.x_str.as_str(), other.x_str.as_str()) && str_eq(
            self.y_str.as_str(),
            other.y_str.as_str(),
        ) && str_eq(self.rotation_str.as_str(), other.rotation_str.as_str()) && self.side
            == other.side && same_option(&self.value, &other.value) && same_option(
            &self.package,
            &other.package,
        )
    }
}

/// Whether two optional strings are the same.
fn same_option(a: &Option<String>, b: &Option<String>) -> (r: bool)
    ensures
        r == (opt_view(*a) == opt_view(*b)),
{
    match (a, b) {
        (Some(x), Some(y)) => str_eq(x.as_str(), y.as_str()),
        (None, None) => true,
        _ => false,
    }
}

/// A column that a file of positions must have.
#[derive(Debug, PartialEq, Eq, Copy, Clone, Structural)]
pub enum Column {
    Designator,
    X,
    Y,
    Rotation,
    Side,
}

/// Why positions could not be read.
#[derive(Debug, PartialEq, Eq, Copy, Clone, Structural)]
pub enum PnpError {
    /// No row holds enough of the known column names.
    HeaderNotFound,
    /// The header lacks a column.
    MissingColumn(Column),
    /// The row at this position, counted after the header, names a side that is not known.
    UnknownSide(usize),
    /// The row at this position, counted after the header, is shorter than the columns ask.
    ShortRow(usize),
}

/// The side that a word names.
pub open spec fn side_of(word: Seq<char>) -> Option<Side> {
    if word == "Top"@ || word == "TOP"@ || word == "top"@ || word == "TopLayer"@ {
        Some(Side::Top)
    } else if word == "Bottom"@ || word == "BOTTOM"@ || word == "bottom"@ || word
        == "BottomLayer"@ {
        Some(Side::Bottom)
    } else {
        None
    }
}

/// The text without a unit `mm` at its end.
pub open spec fn without_unit(s: Seq<char>) -> Seq<char> {
    if s.len() >= 2 && s[s.len() - 2] == 'm' && s[s.len() - 1] == 'm' {
        s.subrange(0, s.len() - 2)
    } else {
        s
    }
}

/// The side that a word names.
pub fn read_side(word: &str) -> (r: Option<Side>)
    ensures
        r == side_of(word@),
{
    if str_eq(word, "Top") || str_eq(word, "TOP") || str_eq(word, "top") || str_eq(
        word,
        "TopLayer",
    ) {
        Some(Side::Top)
    } else if str_eq(word, "Bottom") || str_eq(word, "BOTTOM") || str_eq(word, "bottom") || str_eq(
        word,
        "BottomLayer",
    ) {
        Some(Side::Bottom)
    } else {
        None
    }
}

/// Takes a unit `mm` off the end of the text.
pub fn strip_unit(s: &str) -> (r: String)
    ensures
        r@ == without_unit(s@),
{
    let chars = to_chars(s);
    let n = chars.len();
    if n >= 2 && chars[n - 2] == 'm' && chars[n - 1] == 'm' {
        from_chars(&chars, 0, n - 2)
    } else {
        let r = from_chars(&chars, 0, n);
        assert(chars@.subrange(0, n as int) =~= chars@);
        r
    }
}

/// The columns of a file of positions, by their place in a row.
#[derive(Debug, Copy, Clone)]
pub struct Columns {
    pub designator: usize,
    pub x: usize,
    pub y: usize,
    pub rotation: usize,
    pub side: usize,
    pub value: Option<usize>,
    pub package: Option<usize>,
}

/// The place of the first column among `synonyms`, if any.
pub open spec fn column_of(header: Seq<Seq<char>>, synonyms: Seq<&str>) -> Option<usize> {
    if exists|i: int| first_column(header, synonyms, i) {
        Some((choose|i: int| first_column(header, synonyms, i)) as usize)
    } else {
        None
    }
}

/// Finds a column by its synonyms.
fn column(header: &Vec<String>, synonyms: &[&str]) -> (r: Option<usize>)
    ensures
        r == column_of(texts(header@), synonyms@),
        r matches Some(i) ==> i < header@.len(),
{
    let r = find_column_idx(header.as_slice(), synonyms);
    proof {
        if let Some(i) = r {
            let c = choose|c: int| first_column(texts(header@), synonyms@, c);
            assert(c == i);
        }
    }
    r
}

/// The names under which the designator stands.
pub open spec fn designator_names() -> Seq<&'static str> {
    seq!["Ref", "RefDes", "Designator"]
}

/// The names under which the x coordinate stands.
pub open spec fn x_names() -> Seq<&'static str> {
    seq!["Center-X", "Center-X(mm)", "PosX"]
}

/// The names under which the y coordinate stands.
pub open spec fn y_names() -> Seq<&'static str> {
    seq!["Center-Y", "Center-Y(mm)", "PosY"]
}

/// The names under which the rotation stands.
pub open spec fn rotation_names() -> Seq<&'static str> {
    seq!["Rotation", "Rot"]
}

/// The names under which the side stands.
pub open spec fn side_names() -> Seq<&'static str> {
    seq!["Side", "Layer"]
}

/// The names under which the value stands.
pub open spec fn value_names() -> Seq<&'static str> {
    seq!["Value", "Val", "Comment"]
}

/// The names under which the package stands.
pub open spec fn package_names() -> Seq<&'static str> {
    seq!["Package", "Footprint"]
}

/// The columns that a header gives, or the first that it lacks.
pub open spec fn columns_of(header: Seq<Seq<char>>) -> Result<Columns, PnpError> {
    if column_of(header, designator_names()) is None {
        Err(PnpError::MissingColumn(Column::Designator))
    } else if column_of(header, x_names()) is None {
        Err(PnpError::MissingColumn(Column::X))
    } else if column_of(header, y_names()) is None {
        Err(PnpError::MissingColumn(Column::Y))
    } else if column_of(header, rotation_names()) is None {
        Err(PnpError::MissingColumn(Column::Rotation))
    } else if column_of(header, side_names()) is None {
        Err(PnpError::MissingColumn(Column::Side))
    } else {
        Ok(
            Columns {
                designator: column_of(header, designator_names())->0,
                x: column_of(header, x_names())->0,
                y: column_of(header, y_names())->0,
                rotation: column_of(header, rotation_names())->0,
                side: column_of(header, side_names())->0,
                value: column_of(header, value_names()),
                package: column_of(header, package_names()),
            },
        )
    }
}

/// Finds the columns in a header.
pub fn find_columns(header: &Vec<String>) -> (r: Result<Columns, PnpError>)
    ensures
        r == columns_of(texts(header@)),
{
    let designator_names = ["Ref", "RefDes", "Designator"];
    let x_names = ["Center-X", "Center-X(mm)", "PosX"];
    let y_names = ["Center-Y", "Center-Y(mm)", "PosY"];
    let rotation_names = ["Rotation", "Rot"];
    let side_names = ["Side", "Layer"];
    let value_names = ["Value", "Val", "Comment"];
    let package_names = ["Package", "Footprint"];
    assert(designator_names@ =~= self::designator_names());
    assert(x_names@ =~= self::x_names());
    assert(y_names@ =~= self::y_names());
    assert(rotation_names@ =~= self::rotation_names());
    assert(side_names@ =~= self::side_names());
    assert(value_names@ =~= self::value_names());
    assert(package_names@ =~= self::package_names());
    let Some(designator) = column(header, &designator_names) else {
        return Err(PnpError::MissingColumn(Column::Designator));
    };
    let Some(x) = column(header, &x_names) else {
        return Err(PnpError::MissingColumn(Column::X));
    };
    let Some(y) = column(header, &y_names) else {
        return Err(PnpError::MissingColumn(Column::Y));
    };
    let Some(rotation) = column(header, &rotation_names) else {
        return Err(PnpError::MissingColumn(Column::Rotation));
    };
    let Some(side) = column(header, &side_names) else {
        return Err(PnpError::MissingColumn(Column::Side));
    };
    let value = column(header, &value_names);
    let package = column(header, &package_names);
    Ok(Columns { designator, x, y, rotation, side, value, package })
}

/// The columns all lie within a row of `len` cells.
pub open spec fn columns_within(c: Columns, len: nat) -> bool {
    &&& c.designator < len
    &&& c.x < len
    &&& c.y < len
    &&& c.rotation < len
    &&& c.side < len
    &&& c.value matches Some(v) ==> v < len
    &&& c.package matches Some(p) ==> p < len
}

/// The cell of an optional column.
pub open spec fn optional_cell(row: Seq<Seq<char>>, column: Option<usize>) -> Option<Seq<char>> {
    match column {
        Some(i) => Some(row[i as int]),
        None => None,
    }
}

/// The position that a row gives.
pub open spec fn row_position(row: Seq<Seq<char>>, c: Columns, side: Side) -> ComponentPositionView {
    ComponentPositionView {
        x: without_unit(row[c.x as int]),
        y: without_unit(row[c.y as int]),
        rotation: row[c.rotation as int],
        side,
        value: optional_cell(row, c.value),
        package: optional_cell(row, c.package),
    }
}

/// The positions that the rows from `from` up to `to` give, by designator.
/// A row that failed is passed over. A row that is too short, or that names
/// an unknown side, ends the reading with an error that names its place after `from`.
pub open spec fn positions_of(
    rows: Seq<Option<Seq<Seq<char>>>>,
    c: Columns,
    from: int,
    to: int,
) -> Result<Map<Seq<char>, ComponentPositionView>, PnpError>
    decreases to - from,
{
    if to <= from {
        Ok(Map::empty())
    } else {
        match positions_of(rows, c, from, to - 1) {
            Err(e) => Err(e),
            Ok(before) => match rows[to - 1] {
                None => Ok(before),
                Some(row) => if !columns_within(c, row.len()) {
                    Err(PnpError::ShortRow((to - 1 - from) as usize))
                } else {
                    match side_of(row[c.side as int]) {
                        None => Err(PnpError::UnknownSide((to - 1 - from) as usize)),
                        Some(side) => Ok(
                            before.insert(row[c.designator as int], row_position(row, c, side)),
                        ),
                    }
                },
            },
        }
    }
}

/// What was read, in characters.
pub open spec fn result_view(r: Result<Dict<Designator, ComponentPosition>, PnpError>) -> Result<
    Map<Seq<char>, ComponentPositionView>,
    PnpError,
> {
    match r {
        Ok(p) => Ok(p.map_of(|p: ComponentPosition| p@)),
        Err(e) => Err(e),
    }
}

/// The cell of an optional column.
fn cell_of(row: &Vec<String>, column: Option<usize>) -> (r: Option<String>)
    requires
        column matches Some(i) ==> i < row@.len(),
    ensures
        opt_view(r) == optional_cell(texts(row@), column),
{
    match column {
        Some(i) => {
            assert(texts(row@)[i as int] == row@[i as int]@);
            Some(row[i].clone())
        },
        None => None,
    }
}

/// Reads the positions from the rows that follow the header.
pub fn read_positions(rows: &Vec<Option<Vec<String>>>, columns: Columns, from: usize) -> (r: Result<
    Dict<Designator, ComponentPosition>,
    PnpError,
>)
    requires
        from <= rows@.len(),
    ensures
        r matches Ok(p) ==> p.wf(),
        result_view(r) == positions_of(rows_view(rows@), columns, from as int, rows@.len() as int),
{
    let mut positions: Dict<Designator, ComponentPosition> = Dict::new();
    let c = columns;
    assert(positions.map_of(|p: ComponentPosition| p@) =~= Map::empty());
    let mut i: usize = from;
    while i < rows.len()
        invariant
            positions.wf(),
            c == columns,
            from <= i <= rows@.len(),
            positions_of(rows_view(rows@), c, from as int, i as int) == Ok::<
                Map<Seq<char>, ComponentPositionView>,
                PnpError,
            >(positions.map_of(|p: ComponentPosition| p@)),
        decreases rows@.len() - i,
    {
        assert(rows_view(rows@)[i as int] == row_view(rows@[i as int]));
        let ghost next = positions_of(rows_view(rows@), c, from as int, i + 1);
        if let Some(row) = &rows[i] {
            let n = row.len();
            let within = c.designator < n && c.x < n && c.y < n && c.rotation < n && c.side < n
                && (match c.value {
                Some(v) => v < n,
                None => true,
            }) && (match c.package {
                Some(p) => p < n,
                None => true,
            });
            assert(within == columns_within(c, texts(row@).len()));
            if !within {
                proof {
                    assert(next == Err::<Map<Seq<char>, ComponentPositionView>, PnpError>(
                        PnpError::ShortRow((i - from) as usize),
                    ));
                    lemma_positions_error(rows_view(rows@), c, from as int, i + 1, rows@.len() as int);
                }
                return Err(PnpError::ShortRow(i - from));
            }
            assert(texts(row@)[c.side as int] == row@[c.side as int]@);
            assert(texts(row@)[c.x as int] == row@[c.x as int]@);
            assert(texts(row@)[c.y as int] == row@[c.y as int]@);
            assert(texts(row@)[c.rotation as int] == row@[c.rotation as int]@);
            assert(texts(row@)[c.designator as int] == row@[c.designator as int]@);
            let Some(side) = read_side(row[c.side].as_str()) else {
                proof {
                    assert(next == Err::<Map<Seq<char>, ComponentPositionView>, PnpError>(
                        PnpError::UnknownSide((i - from) as usize),
                    ));
                    lemma_positions_error(rows_view(rows@), c, from as int, i + 1, rows@.len() as int);
                }
                return Err(PnpError::UnknownSide(i - from));
            };
            let position = ComponentPosition {
                x_str: strip_unit(row[c.x].as_str()),
                y_str: strip_unit(row[c.y].as_str()),
                rotation_str: row[c.rotation].clone(),
                side,
                value: cell_of(row, c.value),
                package: cell_of(row, c.package),
            };
            let designator = Designator(row[c.designator].clone());
            let ghost before = positions;
            positions.insert(designator, position);
            proof {
                Dict::lemma_insert_map(
                    &before,
                    &positions,
                    designator@,
                    position,
                    |p: ComponentPosition| p@,
                );
            }
        }
        i = i + 1;
    }
    Ok(positions)
}

/// An error that the reading met stays the result however many rows follow.
pub proof fn lemma_positions_error(
    rows: Seq<Option<Seq<Seq<char>>>>,
    c: Columns,
    from: int,
    at: int,
    to: int,
)
    requires
        from <= at <= to,
        positions_of(rows, c, from, at) is Err,
    ensures
        positions_of(rows, c, from, to) == positions_of(rows, c, from, at),
    decreases to - at,
{
    if at < to {
        lemma_positions_error(rows, c, from, at, to - 1);
    }
}

/// What the rows of a file of positions hold, where the row at position
/// `header` is the header.
pub open spec fn positions_in(rows: Seq<Option<Seq<Seq<char>>>>, header: int) -> Result<
    Map<Seq<char>, ComponentPositionView>,
    PnpError,
> {
    match columns_of(rows[header]->0) {
        Err(e) => Err(e),
        Ok(c) => positions_of(rows, c, header + 1, rows.len() as int),
    }
}

/// The column names by which the header of a file of positions is known.
pub open spec fn known_column_names() -> Seq<&'static str> {
    seq![
        "RefDes",
        "Ref",
        "Designator",
        "Center-X",
        "PosX",
        "Center-X(mm)",
        "Center-Y",
        "PosY",
        "Center-Y(mm)",
        "Rotation",
        "Rot",
        "Layer",
        "Side",
    ]
}

/// Reads the positions of the parts from a CSV file. The header is the
/// first row with five or more known column names.
pub fn load_component_positions(bytes: &[u8]) -> (r: Result<
    Dict<Designator, ComponentPosition>,
    PnpError,
>)
    ensures
        r matches Ok(p) ==> p.wf(),
        (forall|i: int|
            !is_header_row(csv_rows(bytes@, separator_of(bytes@)), 5, known_column_names(), i))
            ==> result_view(r) == Err::<Map<Seq<char>, ComponentPositionView>, PnpError>(
            PnpError::HeaderNotFound,
        ),
        forall|i: int| #[trigger]
            is_header_row(csv_rows(bytes@, separator_of(bytes@)), 5, known_column_names(), i)
                ==> result_view(r) == positions_in(csv_rows(bytes@, separator_of(bytes@)), i),
{
    let names = [
        "RefDes",
        "Ref",
        "Designator",
        "Center-X",
        "PosX",
        "Center-X(mm)",
        "Center-Y",
        "PosY",
        "Center-Y(mm)",
        "Rotation",
        "Rot",
        "Layer",
        "Side",
    ];
    assert(names@ =~= known_column_names());
    let rows = read_rows(bytes);
    let Some((at, header)) = find_header_in_rows(5, &names, &rows) else {
        return Err(PnpError::HeaderNotFound);
    };
    proof {
        let all = rows_view(rows@);
        assert forall|i: int| #[trigger] is_header_row(all, 5, known_column_names(), i) implies i
            == at by {
            if i < at {
                assert(all[i] is Some);
            } else if i > at {
                assert(all[at as int] is Some);
            }
        }
    }
    let count = rows.len();
    assert(at < count);
    match find_columns(&header) {
        Err(e) => Err(e),
        Ok(columns) => read_positions(&rows, columns, at + 1),
    }
}

/// The parts whose positions changed, went away, or came.
#[derive(Debug)]
pub struct PositionChangeList {
    pub changed: Vec<Designator>,
    pub removed: Vec<Designator>,
    pub added: Vec<Designator>,
}

/// Some designator of the list has the view `d`.
pub open spec fn lists(parts: Seq<Designator>, d: Seq<char>) -> bool {
    exists|i: int| 0 <= i < parts.len() && (#[trigger] parts[i])@ == d
}

/// The designators of a list, in characters.
pub open spec fn names_of(parts: Seq<Designator>) -> Seq<Seq<char>> {
    parts.map_values(|d: Designator| d@)
}

/// Those of the first `n` parts of `a` that `b` has too, written
/// differently, in the order of `a`.
pub open spec fn changed_upto(
    a: Dict<Designator, ComponentPosition>,
    b: Dict<Designator, ComponentPosition>,
    n: nat,
) -> Seq<Seq<char>>
    decreases n,
{
    if n == 0 {
        Seq::empty()
    } else {
        let before = changed_upto(a, b, (n - 1) as nat);
        let d = a.keys@[n - 1]@;
        if b.has_key(d) && a.values@[n - 1]@ != b.value_of(d)@ {
            before.push(d)
        } else {
            before
        }
    }
}

/// Those of the first `n` parts of `a` that `b` has not, in the order of `a`.
pub open spec fn missing_upto(
    a: Dict<Designator, ComponentPosition>,
    b: Dict<Designator, ComponentPosition>,
    n: nat,
) -> Seq<Seq<char>>
    decreases n,
{
    if n == 0 {
        Seq::empty()
    } else {
        let before = missing_upto(a, b, (n - 1) as nat);
        let d = a.keys@[n - 1]@;
        if b.has_key(d) {
            before
        } else {
            before.push(d)
        }
    }
}

/// Draws up the changes from the positions `a` to the positions `b`: a
/// part is changed where both have it, written differently; removed where
/// only `a` has it; added where only `b` has it. The changed and the removed
/// parts come in the order of `a`, the added ones in the order of `b`.
pub fn compare_positions(
    a: &Dict<Designator, ComponentPosition>,
    b: &Dict<Designator, ComponentPosition>,
) -> (r: PositionChangeList)
    requires
        a.wf(),
        b.wf(),
    ensures
        forall|d: Seq<char>| #[trigger]
            lists(r.changed@, d) <==> (a.has_key(d) && b.has_key(d) && a.value_of(d)@
                != b.value_of(d)@),
        forall|d: Seq<char>| #[trigger] lists(r.removed@, d) <==> (a.has_key(d) && !b.has_key(d)),
        forall|d: Seq<char>| #[trigger] lists(r.added@, d) <==> (b.has_key(d) && !a.has_key(d)),
        names_of(r.changed@) == changed_upto(*a, *b, a.keys@.len()),
        names_of(r.removed@) == missing_upto(*a, *b, a.keys@.len()),
        names_of(r.added@) == missing_upto(*b, *a, b.keys@.len()),
{
    let mut changed: Vec<Designator> = Vec::new();
    let mut removed: Vec<Designator> = Vec::new();
    let mut added: Vec<Designator> = Vec::new();
    assert(names_of(changed@) =~= changed_upto(*a, *b, 0));
    assert(names_of(removed@) =~= missing_upto(*a, *b, 0));
    assert(names_of(added@) =~= missing_upto(*b, *a, 0));
    let mut i: usize = 0;
    while i < a.len()
        invariant
            a.wf(),
            b.wf(),
            i <= a.keys@.len(),
            names_of(changed@) == changed_upto(*a, *b, i as nat),
            names_of(removed@) == missing_upto(*a, *b, i as nat),
            names_of(added@) == missing_upto(*b, *a, 0),
            forall|d: Seq<char>| #[trigger]
                lists(changed@, d) <==> (b.has_key(d) && a.has_key(d) && a.index_of(d) < i
                    && a.value_of(d)@ != b.value_of(d)@),
            forall|d: Seq<char>| #[trigger]
                lists(removed@, d) <==> (!b.has_key(d) && a.has_key(d) && a.index_of(d) < i),
        decreases a.keys@.len() - i,
    {
        let designator = a.key_at(i);
        let ghost c0 = changed@;
        let ghost r0 = removed@;
        proof {
            a.lemma_index_of(i as int);
        }
        match b.get(designator) {
            Some(other) => {
                if !a.value_at(i).same(other) {
                    changed.push(designator.clone());
                    assert(names_of(changed@) =~= names_of(c0).push(designator@));
                }
            },
            None => {
                removed.push(designator.clone());
                assert(names_of(removed@) =~= names_of(r0).push(designator@));
            },
        }
        proof {
            lemma_pushed(c0, changed@, *designator);
            lemma_pushed(r0, removed@, *designator);
            assert forall|d: Seq<char>| #[trigger]
                lists(changed@, d) <==> (b.has_key(d) && a.has_key(d) && a.index_of(d) < i + 1
                    && a.value_of(d)@ != b.value_of(d)@) by {
                assert(lists(c0, d) <==> (b.has_key(d) && a.has_key(d) && a.index_of(d) < i
                    && a.value_of(d)@ != b.value_of(d)@));
                if a.has_key(d) {
                    let j = a.index_of(d);
                    if j == i {
                        assert(a.keys@[j]@ == d);
                    }
                }
            }
            assert forall|d: Seq<char>| #[trigger]
                lists(removed@, d) <==> (!b.has_key(d) && a.has_key(d) && a.index_of(d) < i + 1) by {
                assert(lists(r0, d) <==> (!b.has_key(d) && a.has_key(d) && a.index_of(d) < i));
                if a.has_key(d) {
                    let j = a.index_of(d);
                    if j == i {
                        assert(a.keys@[j]@ == d);
                    }
                }
            }
        }
        i = i + 1;
    }
    let mut k: usize = 0;
    while k < b.len()
        invariant
            a.wf(),
            b.wf(),
            k <= b.keys@.len(),
            names_of(added@) == missing_upto(*b, *a, k as nat),
            forall|d: Seq<char>| #[trigger]
                lists(added@, d) <==> (!a.has_key(d) && b.has_key(d) && b.index_of(d) < k),
        decreases b.keys@.len() - k,
    {
        let designator = b.key_at(k);
        let ghost a0 = added@;
        proof {
            b.lemma_index_of(k as int);
        }
        if !a.contains_key(designator) {
            added.push(designator.clone());
            assert(names_of(added@) =~= names_of(a0).push(designator@));
        }
        proof {
            lemma_pushed(a0, added@, *designator);
            assert forall|d: Seq<char>| #[trigger]
                lists(added@, d) <==> (!a.has_key(d) && b.has_key(d) && b.index_of(d) < k + 1) by {
                assert(lists(a0, d) <==> (!a.has_key(d) && b.has_key(d) && b.index_of(d) < k));
                if b.has_key(d) {
                    let j = b.index_of(d);
                    if j == k {
                        assert(b.keys@[j]@ == d);
                    }
                }
            }
        }
        k = k + 1;
    }
    PositionChangeList { changed, removed, added }
}

/// A list that is `before`, or `before` with `d` pushed, lists what
/// `before` lists, and `d` in the second case.
proof fn lemma_pushed(before: Seq<Designator>, after: Seq<Designator>, d: Designator)
    requires
        after == before || after == before.push(d),
    ensures
        after == before ==> forall|x: Seq<char>| lists(after, x) <==> lists(before, x),
        after != before ==> forall|x: Seq<char>| lists(after, x) <==> (lists(before, x) || x == d@),
{
    if after != before {
        assert forall|x: Seq<char>| lists(after, x) <==> (lists(before, x) || x == d@) by {
            if lists(after, x) {
                let i = choose|i: int| 0 <= i < after.len() && (#[trigger] after[i])@ == x;
                if i < before.len() {
                    assert(before[i]@ == x);
                }
            }
            if lists(before, x) {
                let i = choose|i: int| 0 <= i < before.len() && (#[trigger] before[i])@ == x;
                assert(after[i]@ == x);
            }
            if x == d@ {
                assert(after[after.len() - 1]@ == x);
            }
        }
    }
}

} // verus!
