//! The column-oriented table a block model owns: an ordered set of named
//! columns of equal length, each holding one value type, with entries that
//! may be absent. Geometry and attribute lookups resolve a column by name
//! and cast it to the fixed-point number type.

use vstd::prelude::*;

use crate::block::{scalar_in_range, SCALAR_LIMIT};

verus! {

/// Relies on `str`'s `PartialEq`: two string slices are equal exactly when
/// their character sequences are equal.
#[verifier::external_body]
pub(crate) fn str_eq(a: &str, b: &str) -> (r: bool)
    ensures
        r == (a@ == b@),
{
    a == b
}

/// The cells of one column: a homogeneous sequence of optional values.
#[derive(Debug, Clone, PartialEq)]
pub enum ColumnValues {
    /// Fixed-point measures.
    Number(Vec<Option<i64>>),
    /// Plain integers; castable to fixed-point numbers.
    Integer(Vec<Option<i32>>),
    /// Text labels; not castable to numbers.
    Label(Vec<Option<String>>),
}

impl ColumnValues {
    /// How many cells the column has.
    pub open spec fn spec_len(&self) -> nat {
        match self {
            ColumnValues::Number(v) => v@.len(),
            ColumnValues::Integer(v) => v@.len(),
            ColumnValues::Label(v) => v@.len(),
        }
    }

    /// The column seen as fixed-point numbers: numbers as they stand,
    /// integers widened, labels not castable.
    pub open spec fn as_numbers(&self) -> Option<Seq<Option<i64>>> {
        match self {
            ColumnValues::Number(v) => Some(v@),
            ColumnValues::Integer(v) => Some(
                v@.map_values(
                    |o: Option<i32>|
                        match o {
                            Some(x) => Some(x as i64),
                            None => None,
                        },
                ),
            ),
            ColumnValues::Label(_) => None,
        }
    }

    /// Every present numeric value is within the fixed-point range.
    pub open spec fn values_in_range(&self) -> bool {
        match self.as_numbers() {
            Some(vals) => forall|i: int|
                0 <= i < vals.len() && vals[i] is Some ==> scalar_in_range(
                    (#[trigger] vals[i])->0 as int,
                ),
            None => true,
        }
    }

    /// How many cells the column has.
    pub fn len(&self) -> (n: usize)
        ensures
            n == self.spec_len(),
    {
        match self {
            ColumnValues::Number(v) => v.len(),
            ColumnValues::Integer(v) => v.len(),
            ColumnValues::Label(v) => v.len(),
        }
    }

    /// Decides whether every present numeric value is within the
    /// fixed-point range.
    pub fn check_range(&self) -> (r: bool)
        ensures
            r == self.values_in_range(),
    {
        match self {
            ColumnValues::Number(v) => {
                let ghost vals = self.as_numbers()->0;
                let mut i: usize = 0;
                while i < v.len()
                    invariant
                        i <= v@.len(),
                        vals == v@,
                        self.as_numbers() == Some(vals),
                        forall|j: int|
                            0 <= j < i && vals[j] is Some ==> scalar_in_range(
                                (#[trigger] vals[j])->0 as int,
                            ),
                    decreases v@.len() - i,
                {
                    if let Some(x) = v[i] {
                        if x < -SCALAR_LIMIT || x > SCALAR_LIMIT {
                            return false;
                        }
                    }
                    i = i + 1;
                }
                true
            },
            ColumnValues::Integer(_) => true,
            ColumnValues::Label(_) => true,
        }
    }

    /// Casts the column to fixed-point numbers, if its value type allows.
    pub fn cast_numbers(&self) -> (r: Option<Vec<Option<i64>>>)
        ensures
            match r {
                Some(vals) => self.as_numbers() == Some(vals@),
                None => self.as_numbers() is None,
            },
    {
        match self {
            ColumnValues::Number(v) => {
                let mut out: Vec<Option<i64>> = Vec::new();
                let mut i: usize = 0;
                while i < v.len()
                    invariant
                        i <= v@.len(),
                        out@ == v@.take(i as int),
                    decreases v@.len() - i,
                {
                    out.push(v[i]);
                    proof {
                        assert(out@ =~= v@.take(i + 1));
                    }
                    i = i + 1;
                }
                proof {
                    assert(out@ =~= v@);
                }
                Some(out)
            },
            ColumnValues::Integer(v) => {
                let mut out: Vec<Option<i64>> = Vec::new();
                let mut i: usize = 0;
                while i < v.len()
                    invariant
                        i <= v@.len(),
                        out@.len() == i,
                        forall|j: int|
                            0 <= j < i ==> out@[j] == (if v@[j] is Some {
                                (Some((v@[j]->0) as i64))
                            } else {
                                (None)
                            }),
                    decreases v@.len() - i,
                {
                    let cell: Option<i64> = match v[i] {
                        Some(x) => Some(x as i64),
                        None => None,
                    };
                    out.push(cell);
                    i = i + 1;
                }
                proof {
                    assert(out@ =~= self.as_numbers()->0);
                }
                Some(out)
            },
            ColumnValues::Label(_) => None,
        }
    }
}

/// Casting to numbers keeps the column length.
pub proof fn lemma_as_numbers_len(c: ColumnValues)
    ensures
        c.as_numbers() matches Some(vals) ==> vals.len() == c.spec_len(),
{
}

/// One named column.
#[derive(Debug, Clone, PartialEq)]
pub struct Column {
    pub name: String,
    pub values: ColumnValues,
}

/// The index of the first column with the given name, or a negative value
/// when no column has it.
pub open spec fn index_of_name(cols: Seq<Column>, name: Seq<char>) -> int
    decreases cols.len(),
{
    if cols.len() == 0 {
        -1
    } else if cols[0].name@ == name {
        0
    } else if index_of_name(cols.drop_first(), name) < 0 {
        -1
    } else {
        index_of_name(cols.drop_first(), name) + 1
    }
}

/// What `index_of_name` finds: a valid index bearing the name, before which
/// no column bears it; or nothing, and then no column bears the name.
pub proof fn lemma_index_of_name(cols: Seq<Column>, name: Seq<char>)
    ensures
        index_of_name(cols, name) >= 0 ==> index_of_name(cols, name) < cols.len() && cols[
            index_of_name(cols, name)
        ].name@ == name,
        index_of_name(cols, name) >= 0 ==> forall|i: int|
            0 <= i < index_of_name(cols, name) ==> (#[trigger] cols[i]).name@ != name,
        index_of_name(cols, name) < 0 ==> forall|i: int|
            0 <= i < cols.len() ==> (#[trigger] cols[i]).name@ != name,
    decreases cols.len(),
{
    if cols.len() > 0 && cols[0].name@ != name {
        lemma_index_of_name(cols.drop_first(), name);
        assert(forall|i: int|
            1 <= i < cols.len() ==> #[trigger] cols[i] == cols.drop_first()[i - 1]);
    }
}

/// Why a column could not be resolved to numbers.
#[derive(Debug, PartialEq, Eq, Structural, Copy, Clone)]
pub enum ColumnFault {
    /// No column has the requested name.
    Missing,
    /// The column exists but its values are not numeric.
    NotNumeric,
}

/// A column-oriented table: an ordered set of uniquely named columns of
/// equal length.
#[derive(Debug, Clone, PartialEq)]
pub struct Table {
    pub columns: Vec<Column>,
}

impl Table {
    /// How many rows the table has: the length of its columns.
    pub open spec fn spec_row_count(&self) -> nat {
        if self.columns@.len() == 0 {
            0
        } else {
            self.columns@[0].values.spec_len()
        }
    }

    /// Column names are pairwise distinct.
    pub open spec fn names_unique(&self) -> bool {
        forall|p: int, q: int|
            0 <= p < q < self.columns@.len() ==> self.columns@[p].name@ != self.columns@[q].name@
    }

    /// Well-formed table: unique names, equal column lengths, and numeric
    /// values within the fixed-point range.
    pub open spec fn wf(&self) -> bool {
        &&& self.names_unique()
        &&& forall|i: int|
            0 <= i < self.columns@.len() ==> (#[trigger] self.columns@[i]).values.spec_len()
                == self.spec_row_count()
        &&& forall|i: int|
            0 <= i < self.columns@.len() ==> (#[trigger] self.columns@[i]).values.values_in_range()
    }

    /// A column with this name exists.
    pub open spec fn has_column(&self, name: Seq<char>) -> bool {
        index_of_name(self.columns@, name) >= 0
    }

    /// A column with this name exists and casts to numbers.
    pub open spec fn col_numeric(&self, name: Seq<char>) -> bool {
        &&& self.has_column(name)
        &&& self.columns@[index_of_name(self.columns@, name)].values.as_numbers() is Some
    }

    /// The numeric cells of the named column.
    pub open spec fn numbers_of(&self, name: Seq<char>) -> Seq<Option<i64>> {
        self.columns@[index_of_name(self.columns@, name)].values.as_numbers()->0
    }

    /// The names of the columns, in table order.
    pub open spec fn spec_column_names(&self) -> Seq<Seq<char>> {
        self.columns@.map_values(|c: Column| c.name@)
    }

    /// An empty table with no columns and no rows.
    pub fn new() -> (t: Table)
        ensures
            t.columns@.len() == 0,
            t.wf(),
            t.spec_row_count() == 0,
    {
        Table { columns: Vec::new() }
    }

    /// How many rows the table has.
    pub fn row_count(&self) -> (n: usize)
        ensures
            n == self.spec_row_count(),
    {
        if self.columns.len() == 0 {
            0
        } else {
            self.columns[0].values.len()
        }
    }

    /// The position of the named column, scanning in table order.
    pub fn find_column(&self, name: &str) -> (r: Option<usize>)
        ensures
            match r {
                Some(i) => index_of_name(self.columns@, name@) == i as int,
                None => index_of_name(self.columns@, name@) < 0,
            },
    {
        let mut i: usize = 0;
        while i < self.columns.len()
            invariant
                i <= self.columns@.len(),
                forall|j: int| 0 <= j < i ==> (#[trigger] self.columns@[j]).name@ != name@,
            decreases self.columns@.len() - i,
        {
            if str_eq(self.columns[i].name.as_str(), name) {
                proof {
                    lemma_index_of_name(self.columns@, name@);
                }
                return Some(i);
            }
            i = i + 1;
        }
        proof {
            lemma_index_of_name(self.columns@, name@);
        }
        None
    }

    /// Resolves the named column and casts it to fixed-point numbers,
    /// reporting a missing column or a non-numeric column.
    pub fn get_number_column(&self, name: &str) -> (r: Result<Vec<Option<i64>>, ColumnFault>)
        ensures
            match r {
                Ok(vals) => self.col_numeric(name@) && vals@ == self.numbers_of(name@),
                Err(ColumnFault::Missing) => !self.has_column(name@),
                Err(ColumnFault::NotNumeric) => self.has_column(name@) && !self.col_numeric(name@),
            },
    {
        proof {
            lemma_index_of_name(self.columns@, name@);
        }
        match self.find_column(name) {
            None => Err(ColumnFault::Missing),
            Some(i) => match self.columns[i].values.cast_numbers() {
                None => Err(ColumnFault::NotNumeric),
                Some(vals) => Ok(vals),
            },
        }
    }

    /// Appends a column. The column is accepted exactly when its name is
    /// new, its length matches the table's rows (any length for the first
    /// column), and its numeric values are within the fixed-point range;
    /// a rejected column leaves the table unchanged.
    pub fn push_column(&mut self, name: String, values: ColumnValues) -> (ok: bool)
        requires
            old(self).wf(),
        ensures
            final(self).wf(),
            ok ==> final(self).columns@ == old(self).columns@.push(
                Column { name: name, values: values },
            ),
            !ok ==> *final(self) == *old(self),
            ok <==> (!old(self).has_column(name@) && values.values_in_range() && (old(
                self,
            ).columns@.len() == 0 || values.spec_len() == old(self).spec_row_count())),
    {
        proof {
            lemma_index_of_name(self.columns@, name@);
        }
        let present = match self.find_column(name.as_str()) {
            Some(_) => true,
            None => false,
        };
        if present {
            return false;
        }
        if !values.check_range() {
            return false;
        }
        if self.columns.len() > 0 {
            let rows = self.row_count();
            if values.len() != rows {
                return false;
            }
        }
        proof {
            lemma_index_of_name(self.columns@, name@);
        }
        self.columns.push(Column { name, values });
        proof {
            let cols = self.columns@;
            let n = cols.len() - 1;
            assert(forall|i: int| 0 <= i < n ==> cols[i] == old(self).columns@[i]);
            lemma_index_of_name(old(self).columns@, cols[n].name@);
        }
        true
    }
}

} // verus!
