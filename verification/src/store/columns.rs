//! Columns of values: what a table of records is made of.
use crate::store::record::{PrimitiveV, PrimitiveValue};
use crate::utils::errors::ElementStoreError;
use vstd::prelude::*;
use vstd::string::*;

verus! {

/// The type of a column. A list names the type of its items and whether an item
/// may be null.
#[derive(Debug, PartialEq, Eq)]
pub enum DataType {
    Utf8,
    Binary,
    Int64,
    Float64,
    Boolean,
    Null,
    List(Box<DataType>, bool),
    Other(String),
}

/// The type of a column as mathematics sees it.
#[verifier::ext_equal]
pub enum TypeV {
    Utf8,
    Binary,
    Int64,
    Float64,
    Boolean,
    Null,
    List(Box<TypeV>, bool),
    Other(Seq<char>),
}

/// The model of a type.
pub open spec fn type_model(t: DataType) -> TypeV
    decreases t,
{
    match t {
        DataType::Utf8 => TypeV::Utf8,
        DataType::Binary => TypeV::Binary,
        DataType::Int64 => TypeV::Int64,
        DataType::Float64 => TypeV::Float64,
        DataType::Boolean => TypeV::Boolean,
        DataType::Null => TypeV::Null,
        DataType::List(item, nullable) => TypeV::List(Box::new(type_model(*item)), nullable),
        DataType::Other(name) => TypeV::Other(name@),
    }
}

/// Whether a column of this type holds primitive values.
pub open spec fn holds_primitives(t: TypeV) -> bool {
    !(t is List) && !(t is Other)
}

impl Clone for DataType {
    fn clone(&self) -> (r: DataType)
        ensures
            type_model(r) == type_model(*self),
    {
        self.duplicate()
    }
}

impl DataType {
    /// The same type once more.
    pub fn duplicate(&self) -> (r: DataType)
        ensures
            type_model(r) == type_model(*self),
        decreases self,
    {
        match self {
            DataType::Utf8 => DataType::Utf8,
            DataType::Binary => DataType::Binary,
            DataType::Int64 => DataType::Int64,
            DataType::Float64 => DataType::Float64,
            DataType::Boolean => DataType::Boolean,
            DataType::Null => DataType::Null,
            DataType::List(item, nullable) => DataType::List(
                Box::new(item.duplicate()),
                *nullable,
            ),
            DataType::Other(name) => DataType::Other(name.clone()),
        }
    }

    /// Whether the two are the same type.
    pub fn same(&self, other: &DataType) -> (r: bool)
        ensures
            r == (type_model(*self) == type_model(*other)),
        decreases self,
    {
        match (self, other) {
            (DataType::Utf8, DataType::Utf8) => true,
            (DataType::Binary, DataType::Binary) => true,
            (DataType::Int64, DataType::Int64) => true,
            (DataType::Float64, DataType::Float64) => true,
            (DataType::Boolean, DataType::Boolean) => true,
            (DataType::Null, DataType::Null) => true,
            (DataType::List(a, m), DataType::List(b, n)) => *m == *n && a.same(b),
            (DataType::Other(a), DataType::Other(b)) => *a == *b,
            _ => false,
        }
    }

    /// Whether a column of this type holds primitive values.
    pub fn is_primitive(&self) -> (r: bool)
        ensures
            r == holds_primitives(type_model(*self)),
    {
        match self {
            DataType::List(_, _) => false,
            DataType::Other(_) => false,
            _ => true,
        }
    }

    /// Whether this is the type of a column of nothing but nulls.
    pub fn is_null(&self) -> (r: bool)
        ensures
            r == (type_model(*self) == TypeV::Null),
    {
        match self {
            DataType::Null => true,
            _ => false,
        }
    }
}

/// A named column of a schema.
#[derive(Debug, Clone, PartialEq, Eq)]
pub struct TableField {
    pub name: String,
    pub data_type: DataType,
    pub nullable: bool,
}

/// A named column as mathematics sees it.
#[verifier::ext_equal]
pub struct FieldV {
    pub name: Seq<char>,
    pub data_type: TypeV,
    pub nullable: bool,
}

impl TableField {
    pub open spec fn model(self) -> FieldV {
        FieldV {
            name: self.name@,
            data_type: type_model(self.data_type),
            nullable: self.nullable,
        }
    }

    pub fn new(name: &str, data_type: DataType, nullable: bool) -> (r: TableField)
        ensures
            r.model() == (FieldV {
                name: name@,
                data_type: type_model(data_type),
                nullable,
            }),
    {
        TableField { name: name.to_string(), data_type, nullable }
    }
}

/// The columns of a table, in order.
#[derive(Debug, Clone, PartialEq, Eq)]
pub struct TableSchema {
    pub fields: Vec<TableField>,
}

/// The first field of that name at or behind a place, and its place.
pub open spec fn field_from(fields: Seq<FieldV>, name: Seq<char>, i: int) -> Option<int>
    decreases fields.len() - i,
{
    if i < 0 || i >= fields.len() {
        None
    } else if fields[i].name == name {
        Some(i)
    } else {
        field_from(fields, name, i + 1)
    }
}

/// The place of the first field of that name.
pub open spec fn field_named(fields: Seq<FieldV>, name: Seq<char>) -> Option<int> {
    field_from(fields, name, 0)
}

impl TableSchema {
    pub open spec fn model(self) -> Seq<FieldV> {
        Seq::new(self.fields@.len(), |i: int| self.fields@[i].model())
    }

    /// The place of the first field of that name.
    pub fn index_of(&self, name: &str) -> (r: Option<usize>)
        ensures
            match r {
                Some(at) => field_named(self.model(), name@) == Some(at as int) && at
                    < self.fields@.len(),
                None => field_named(self.model(), name@) is None,
            },
    {
        let n: usize = self.fields.len();
        let mut i: usize = 0;
        while i < n
            invariant
                n == self.fields@.len(),
                i <= n,
                field_named(self.model(), name@) == field_from(self.model(), name@, i as int),
            decreases n - i,
        {
            assert(self.model()[i as int] == self.fields@[i as int].model());
            if crate::text::same_text(self.fields[i].name.as_str(), name) {
                return Some(i);
            }
            i = i + 1;
        }
        None
    }

    /// The same columns once more.
    pub fn duplicate(&self) -> (r: TableSchema)
        ensures
            r.model() == self.model(),
    {
        let n: usize = self.fields.len();
        let mut fields: Vec<TableField> = Vec::new();
        let mut i: usize = 0;
        while i < n
            invariant
                n == self.fields@.len(),
                i <= n,
                fields@.len() == i,
                forall|j: int|
                    0 <= j < i ==> (#[trigger] fields@[j]).model() == self.fields@[j].model(),
            decreases n - i,
        {
            let field = &self.fields[i];
            fields.push(
                TableField {
                    name: field.name.clone(),
                    data_type: field.data_type.duplicate(),
                    nullable: field.nullable,
                },
            );
            i = i + 1;
        }
        let r = TableSchema { fields };
        assert(r.model() =~= self.model());
        r
    }
}

/// A column of cells that have no parts. A cell that is missing is null. Of a
/// type that records are not made of, only the name is known, and which cells are
/// there.
#[derive(Debug, Clone, PartialEq, Eq)]
pub enum Cells {
    Utf8(Vec<Option<String>>),
    Binary(Vec<Option<Vec<u8>>>),
    Int64(Vec<Option<i64>>),
    Float64(Vec<Option<u64>>),
    Boolean(Vec<Option<bool>>),
    Null(usize),
    Other(String, Vec<bool>),
}

impl Cells {
    /// The type of the cells.
    pub open spec fn type_of(self) -> TypeV {
        match self {
            Cells::Utf8(_) => TypeV::Utf8,
            Cells::Binary(_) => TypeV::Binary,
            Cells::Int64(_) => TypeV::Int64,
            Cells::Float64(_) => TypeV::Float64,
            Cells::Boolean(_) => TypeV::Boolean,
            Cells::Null(_) => TypeV::Null,
            Cells::Other(name, _) => TypeV::Other(name@),
        }
    }

    /// How many cells there are.
    pub open spec fn count(self) -> nat {
        match self {
            Cells::Utf8(v) => v@.len(),
            Cells::Binary(v) => v@.len(),
            Cells::Int64(v) => v@.len(),
            Cells::Float64(v) => v@.len(),
            Cells::Boolean(v) => v@.len(),
            Cells::Null(n) => n as nat,
            Cells::Other(_, there) => there@.len(),
        }
    }

    /// The value of a cell: a null is no value at all, and a cell of a type that
    /// records are not made of has none that can be read.
    pub open spec fn at(self, i: int) -> Option<PrimitiveV> {
        match self {
            Cells::Utf8(v) => match v@[i] {
                Some(s) => Some(PrimitiveV::String(s@)),
                None => Some(PrimitiveV::Void),
            },
            Cells::Binary(v) => match v@[i] {
                Some(b) => Some(PrimitiveV::Bytes(b@)),
                None => Some(PrimitiveV::Void),
            },
            Cells::Int64(v) => match v@[i] {
                Some(n) => Some(PrimitiveV::Int64(n)),
                None => Some(PrimitiveV::Void),
            },
            Cells::Float64(v) => match v@[i] {
                Some(n) => Some(PrimitiveV::Float64(n)),
                None => Some(PrimitiveV::Void),
            },
            Cells::Boolean(v) => match v@[i] {
                Some(b) => Some(PrimitiveV::Bool(b)),
                None => Some(PrimitiveV::Void),
            },
            Cells::Null(_) => Some(PrimitiveV::Void),
            Cells::Other(_, there) => if there@[i] {
                None
            } else {
                Some(PrimitiveV::Void)
            },
        }
    }

    /// Whether a cell is marked as missing. A column of nothing but nulls marks
    /// none.
    pub open spec fn missing(self, i: int) -> bool {
        match self {
            Cells::Utf8(v) => v@[i] is None,
            Cells::Binary(v) => v@[i] is None,
            Cells::Int64(v) => v@[i] is None,
            Cells::Float64(v) => v@[i] is None,
            Cells::Boolean(v) => v@[i] is None,
            Cells::Null(_) => false,
            Cells::Other(_, there) => !there@[i],
        }
    }

    /// How many cells there are.
    pub fn len(&self) -> (r: usize)
        ensures
            r == self.count(),
    {
        match self {
            Cells::Utf8(v) => v.len(),
            Cells::Binary(v) => v.len(),
            Cells::Int64(v) => v.len(),
            Cells::Float64(v) => v.len(),
            Cells::Boolean(v) => v.len(),
            Cells::Null(n) => *n,
            Cells::Other(_, there) => there.len(),
        }
    }

    /// The type of the cells.
    pub fn data_type(&self) -> (r: DataType)
        ensures
            type_model(r) == self.type_of(),
    {
        match self {
            Cells::Utf8(_) => DataType::Utf8,
            Cells::Binary(_) => DataType::Binary,
            Cells::Int64(_) => DataType::Int64,
            Cells::Float64(_) => DataType::Float64,
            Cells::Boolean(_) => DataType::Boolean,
            Cells::Null(_) => DataType::Null,
            Cells::Other(name, _) => DataType::Other(name.clone()),
        }
    }

    /// Whether a cell is marked as missing.
    pub fn is_missing(&self, row: usize) -> (r: bool)
        requires
            row < self.count(),
        ensures
            r == self.missing(row as int),
    {
        match self {
            Cells::Utf8(v) => v[row].is_none(),
            Cells::Binary(v) => v[row].is_none(),
            Cells::Int64(v) => v[row].is_none(),
            Cells::Float64(v) => v[row].is_none(),
            Cells::Boolean(v) => v[row].is_none(),
            Cells::Null(_) => false,
            Cells::Other(_, there) => !there[row],
        }
    }

    /// The value of a cell; none for a cell of a type that records are not made
    /// of.
    pub fn value(&self, row: usize) -> (r: Option<PrimitiveValue>)
        requires
            row < self.count(),
        ensures
            match r {
                Some(p) => self.at(row as int) == Some(p.model()),
                None => self.at(row as int) is None,
            },
    {
        match self {
            Cells::Utf8(v) => match &v[row] {
                Some(s) => Some(PrimitiveValue::String(s.clone())),
                None => Some(PrimitiveValue::Void),
            },
            Cells::Binary(v) => match &v[row] {
                Some(b) => Some(
                    PrimitiveValue::Bytes(crate::coders::wire::copy_range(b, 0, b.len())),
                ),
                None => Some(PrimitiveValue::Void),
            },
            Cells::Int64(v) => match v[row] {
                Some(n) => Some(PrimitiveValue::Int64(n)),
                None => Some(PrimitiveValue::Void),
            },
            Cells::Float64(v) => match v[row] {
                Some(n) => Some(PrimitiveValue::Float64(n)),
                None => Some(PrimitiveValue::Void),
            },
            Cells::Boolean(v) => match v[row] {
                Some(b) => Some(PrimitiveValue::Bool(b)),
                None => Some(PrimitiveValue::Void),
            },
            Cells::Null(_) => Some(PrimitiveValue::Void),
            Cells::Other(_, there) => if there[row] {
                None
            } else {
                Some(PrimitiveValue::Void)
            },
        }
    }
}

/// A column of lists. The items of all lists stand one behind the other; the
/// items of the list in a row begin at the row's offset and end where those of
/// the next row begin.
#[derive(Debug, Clone, PartialEq, Eq)]
pub struct ListColumn {
    pub offsets: Vec<i32>,
    pub there: Vec<bool>,
    pub items: Cells,
    pub item_nullable: bool,
}

impl ListColumn {
    /// Every list lies within the items.
    pub open spec fn wf(self) -> bool {
        &&& self.offsets@.len() == self.there@.len() + 1
        &&& forall|i: int| 0 <= i < self.offsets@.len() ==> 0 <= #[trigger] self.offsets@[i]
        &&& forall|i: int, j: int|
            0 <= i <= j < self.offsets@.len() ==> #[trigger] self.offsets@[i]
                <= #[trigger] self.offsets@[j]
        &&& forall|i: int|
            0 <= i < self.offsets@.len() ==> #[trigger] self.offsets@[i] <= self.items.count()
    }

    /// The list in a row: a null is an empty list, and a list of items that
    /// cannot be read has none.
    pub open spec fn list_at(self, i: int) -> Option<Seq<PrimitiveV>> {
        let start = self.offsets@[i] as int;
        let end = self.offsets@[i + 1] as int;
        if !self.there@[i] {
            Some(Seq::empty())
        } else if forall|j: int| start <= j < end ==> (#[trigger] self.items.at(j)) is Some {
            Some(Seq::new((end - start) as nat, |j: int| self.items.at(start + j)->Some_0))
        } else {
            None
        }
    }
}

/// A column of a table.
#[derive(Debug, Clone, PartialEq, Eq)]
pub enum Column {
    Cells(Cells),
    List(ListColumn),
}

impl Column {
    pub open spec fn wf(self) -> bool {
        match self {
            Column::Cells(_) => true,
            Column::List(list) => list.wf(),
        }
    }

    /// The type of the column.
    pub open spec fn type_of(self) -> TypeV {
        match self {
            Column::Cells(cells) => cells.type_of(),
            Column::List(list) => TypeV::List(Box::new(list.items.type_of()), list.item_nullable),
        }
    }

    /// How many rows the column has.
    pub open spec fn count(self) -> nat {
        match self {
            Column::Cells(cells) => cells.count(),
            Column::List(list) => list.there@.len(),
        }
    }

    /// Whether a row is marked as missing.
    pub open spec fn missing(self, i: int) -> bool {
        match self {
            Column::Cells(cells) => cells.missing(i),
            Column::List(list) => !list.there@[i],
        }
    }

    /// Whether some row is marked as missing.
    pub open spec fn has_missing(self) -> bool {
        exists|i: int| 0 <= i < self.count() && #[trigger] self.missing(i)
    }

    /// The primitive value in a row; none where the row holds a list.
    pub open spec fn primitive_at(self, i: int) -> Option<PrimitiveV> {
        match self {
            Column::Cells(cells) => cells.at(i),
            Column::List(list) => if list.there@[i] {
                None
            } else {
                Some(PrimitiveV::Void)
            },
        }
    }

    /// The list in a row; none where the column is not one of lists.
    pub open spec fn list_at(self, i: int) -> Option<Seq<PrimitiveV>> {
        match self {
            Column::Cells(_) => None,
            Column::List(list) => list.list_at(i),
        }
    }

    pub fn len(&self) -> (r: usize)
        ensures
            r == self.count(),
    {
        match self {
            Column::Cells(cells) => cells.len(),
            Column::List(list) => list.there.len(),
        }
    }

    pub fn data_type(&self) -> (r: DataType)
        ensures
            type_model(r) == self.type_of(),
    {
        match self {
            Column::Cells(cells) => cells.data_type(),
            Column::List(list) => DataType::List(
                Box::new(list.items.data_type()),
                list.item_nullable,
            ),
        }
    }

    /// Whether some row is marked as missing.
    pub fn has_nulls(&self) -> (r: bool)
        ensures
            r == self.has_missing(),
    {
        let n: usize = self.len();
        let mut i: usize = 0;
        while i < n
            invariant
                n == self.count(),
                i <= n,
                forall|j: int| 0 <= j < i ==> !(#[trigger] self.missing(j)),
            decreases n - i,
        {
            let missing = match self {
                Column::Cells(cells) => cells.is_missing(i),
                Column::List(list) => !list.there[i],
            };
            assert(missing == self.missing(i as int));
            if missing {
                return true;
            }
            i = i + 1;
        }
        false
    }
}

/// Some rows of a table.
#[derive(Debug, Clone, PartialEq, Eq)]
pub struct RecordBatch {
    pub schema: TableSchema,
    pub columns: Vec<Column>,
    pub rows: usize,
}

/// Whether the columns fit the schema and each other.
pub open spec fn columns_fit(fields: Seq<FieldV>, columns: Seq<Column>) -> bool {
    &&& columns.len() > 0
    &&& columns.len() == fields.len()
    &&& forall|i: int|
        0 <= i < columns.len() ==> {
            &&& (#[trigger] columns[i]).count() == columns[0].count()
            &&& columns[i].type_of() == fields[i].data_type
            &&& (fields[i].nullable || !columns[i].has_missing())
        }
}

impl RecordBatch {
    /// The columns fit the schema and have as many rows as the batch.
    pub open spec fn wf(self) -> bool {
        &&& columns_fit(self.schema.model(), self.columns@)
        &&& self.columns@[0].count() == self.rows
        &&& forall|i: int| 0 <= i < self.columns@.len() ==> (#[trigger] self.columns@[i]).wf()
    }

    /// A batch of these columns; refused where they do not fit.
    pub fn try_new(schema: TableSchema, columns: Vec<Column>) -> (r: Result<
        RecordBatch,
        ElementStoreError,
    >)
        requires
            forall|i: int| 0 <= i < columns@.len() ==> (#[trigger] columns@[i]).wf(),
        ensures
            match r {
                Ok(batch) => columns_fit(schema.model(), columns@) && batch.wf()
                    && batch.schema == schema && batch.columns == columns,
                Err(e) => !columns_fit(schema.model(), columns@) && (e matches ElementStoreError::Write(
                    m,
                ) && m@ == "failed to build record batch"@),
            },
    {
        let refusal = ElementStoreError::Write("failed to build record batch".to_string());
        let n: usize = columns.len();
        if n == 0 || n != schema.fields.len() {
            return Err(refusal);
        }
        let rows: usize = columns[0].len();
        let mut i: usize = 0;
        while i < n
            invariant
                n > 0,
                n == columns@.len(),
                n == schema.fields@.len(),
                rows == columns@[0].count(),
                refusal matches ElementStoreError::Write(m) && m@ == "failed to build record batch"@,
                i <= n,
                forall|j: int|
                    0 <= j < i ==> {
                        &&& (#[trigger] columns@[j]).count() == columns@[0].count()
                        &&& columns@[j].type_of() == schema.model()[j].data_type
                        &&& (schema.model()[j].nullable || !columns@[j].has_missing())
                    },
            decreases n - i,
        {
            let column = &columns[i];
            let field = &schema.fields[i];
            assert(schema.model()[i as int] == schema.fields@[i as int].model());
            assert(*column == columns@[i as int]);
            if column.len() != rows || !column.data_type().same(&field.data_type) || (
            !field.nullable && column.has_nulls()) {
                return Err(refusal);
            }
            i = i + 1;
        }
        Ok(RecordBatch { schema, columns, rows })
    }

    /// How many rows there are.
    pub fn num_rows(&self) -> (r: usize)
        ensures
            r == self.rows,
    {
        self.rows
    }

    /// The column under the first field of that name.
    pub open spec fn column_named(self, name: Seq<char>) -> Option<Column> {
        match field_named(self.schema.model(), name) {
            Some(at) => Some(self.columns@[at]),
            None => None,
        }
    }

    /// The column under the first field of that name.
    pub fn column_by_name(&self, name: &str) -> (r: Option<&Column>)
        requires
            self.wf(),
        ensures
            match r {
                Some(column) => self.column_named(name@) == Some(*column) && column.wf()
                    && column.count() == self.rows,
                None => self.column_named(name@) is None,
            },
    {
        match self.schema.index_of(name) {
            Some(at) => Some(&self.columns[at]),
            None => None,
        }
    }
}

} // verus!
