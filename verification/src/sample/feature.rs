//! Feature columns, dense and sparse.
use crate::scalar::Scalar;
use rayon::iter::IntoParallelIterator;
use rayon::iter::ParallelIterator;
use vstd::prelude::*;

verus! {

/// A column that stores one value per row.
pub struct DenseFeature {
    /// The column's name.
    pub name: String,
    /// The values, by row.
    pub sample: Vec<Scalar>,
}

/// A column that stores only the rows whose value is not zero.
pub struct SparseFeature {
    /// The column's name.
    pub name: String,
    /// Pairs of a row and the value in that row, in the order of arrival.
    pub sample: Vec<(usize, Scalar)>,
    /// The number of rows the column stands for.
    pub n_sample: usize,
}

/// A feature column.
pub enum Feature {
    Dense(DenseFeature),
    Sparse(SparseFeature),
}

/// The value that a list of sparse entries gives to `row`, looking from
/// position `start` on: that of the first entry for the row, or positive
/// zero where there is none.
pub open spec fn sparse_value(entries: Seq<(usize, Scalar)>, row: int, start: int) -> Scalar
    decreases entries.len() - start,
{
    if start < 0 || start >= entries.len() {
        Scalar { bits: 0 }
    } else if entries[start].0 == row {
        entries[start].1
    } else {
        sparse_value(entries, row, start + 1)
    }
}

impl DenseFeature {
    /// An empty column with the given name.
    pub fn new(name: String) -> (r: DenseFeature)
        ensures
            r.name == name,
            r.sample@.len() == 0,
    {
        DenseFeature { name, sample: Vec::new() }
    }

    /// Adds the value of the next row.
    pub fn append(&mut self, x: Scalar)
        ensures
            final(self).name == old(self).name,
            final(self).sample@ == old(self).sample@.push(x),
    {
        self.sample.push(x);
    }
}

impl SparseFeature {
    /// An empty column with the given name, standing for no rows yet.
    pub fn new(name: String) -> (r: SparseFeature)
        ensures
            r.name == name,
            r.sample@.len() == 0,
            r.n_sample == 0,
    {
        SparseFeature { name, sample: Vec::new(), n_sample: 0 }
    }

    /// Records that `row` holds `x`. A value that compares equal to
    /// zero is not stored.
    pub fn append(&mut self, row: usize, x: Scalar)
        ensures
            final(self).name == old(self).name,
            final(self).n_sample == old(self).n_sample,
            final(self).sample@ == if x.magnitude() == 0 {
                old(self).sample@
            } else {
                old(self).sample@.push((row, x))
            },
    {
        if !x.is_zero() {
            self.sample.push((row, x));
        }
    }
}

impl Feature {
    /// The column's name.
    pub open spec fn name_view(self) -> Seq<char> {
        match self {
            Feature::Dense(f) => f.name@,
            Feature::Sparse(f) => f.name@,
        }
    }

    /// The number of rows the column stands for.
    pub open spec fn rows(self) -> nat {
        match self {
            Feature::Dense(f) => f.sample@.len(),
            Feature::Sparse(f) => f.n_sample as nat,
        }
    }

    /// The number of values the column stores.
    pub open spec fn stored(self) -> nat {
        match self {
            Feature::Dense(f) => f.sample@.len(),
            Feature::Sparse(f) => f.sample@.len(),
        }
    }

    /// The value in `row`.
    pub open spec fn value(self, row: int) -> Scalar {
        match self {
            Feature::Dense(f) => f.sample@[row],
            Feature::Sparse(f) => sparse_value(f.sample@, row, 0),
        }
    }

    /// The column written out row by row.
    pub open spec fn column(self) -> Seq<Scalar> {
        Seq::new(self.rows(), |row: int| self.value(row))
    }

    /// Whether the column belongs in a sample of `n` rows: it stands for
    /// `n` rows, and a sparse column names no row beyond them.
    pub open spec fn fits(self, n: nat) -> bool {
        match self {
            Feature::Dense(f) => f.sample@.len() == n,
            Feature::Sparse(f) => f.n_sample == n && forall|e: int|
                0 <= e < f.sample@.len() ==> (#[trigger] f.sample@[e]).0 < n,
        }
    }

    /// The same column under another name.
    pub open spec fn renamed(self, other: Feature) -> bool {
        match (self, other) {
            (Feature::Dense(f), Feature::Dense(g)) => f.sample == g.sample,
            (Feature::Sparse(f), Feature::Sparse(g)) => f.sample == g.sample && f.n_sample
                == g.n_sample,
            _ => false,
        }
    }

    /// The column's name.
    pub fn name(&self) -> (r: &String)
        ensures
            r@ == self.name_view(),
    {
        match self {
            Feature::Dense(f) => &f.name,
            Feature::Sparse(f) => &f.name,
        }
    }

    /// The number of values the column stores: one per row for a dense
    /// column, one per non-zero row for a sparse one.
    pub fn len(&self) -> (r: usize)
        ensures
            r == self.stored(),
    {
        match self {
            Feature::Dense(f) => f.sample.len(),
            Feature::Sparse(f) => f.sample.len(),
        }
    }

    /// Whether the column is sparse.
    pub fn is_sparse(&self) -> (r: bool)
        ensures
            r == (self is Sparse),
    {
        match self {
            Feature::Dense(_) => false,
            Feature::Sparse(_) => true,
        }
    }

    /// The value in `row`.
    #[verifier::loop_isolation(false)]
    pub fn value_at(&self, row: usize) -> (r: Scalar)
        requires
            row < self.rows(),
        ensures
            r == self.value(row as int),
    {
        match self {
            Feature::Dense(f) => f.sample[row],
            Feature::Sparse(f) => {
                let mut i: usize = 0;
                while i < f.sample.len()
                    invariant
                        i <= f.sample@.len(),
                        sparse_value(f.sample@, row as int, 0) == sparse_value(
                            f.sample@,
                            row as int,
                            i as int,
                        ),
                    decreases f.sample@.len() - i,
                {
                    if f.sample[i].0 == row {
                        return f.sample[i].1;
                    }
                    i += 1;
                }
                Scalar::zero()
            },
        }
    }

    /// Gives the column a new name and hands back the old one.
    pub fn replace_name(&mut self, name: String) -> (old_name: String)
        ensures
            old_name@ == old(self).name_view(),
            final(self).name_view() == name@,
            old(self).renamed(*final(self)),
            forall|n: nat| old(self).fits(n) == final(self).fits(n),
            forall|row: int| old(self).value(row) == final(self).value(row),
            old(self).rows() == final(self).rows(),
            old(self).stored() == final(self).stored(),
    {
        let mut name = name;
        match self {
            Feature::Dense(f) => {
                std::mem::swap(&mut f.name, &mut name);
            },
            Feature::Sparse(f) => {
                std::mem::swap(&mut f.name, &mut name);
            },
        }
        name
    }

    /// The column written out row by row, as a target vector.
    pub fn into_target(self) -> (r: Vec<Scalar>)
        ensures
            r@ == self.column(),
    {
        match self {
            Feature::Dense(f) => {
                assert(f.sample@ =~= Feature::Dense(f).column());
                f.sample
            },
            Feature::Sparse(f) => {
                let feature = Feature::Sparse(f);
                let n: usize = feature.len_rows();
                let mut out: Vec<Scalar> = Vec::new();
                let mut row: usize = 0;
                while row < n
                    invariant
                        n == feature.rows(),
                        row <= n,
                        out@.len() == row,
                        forall|k: int| 0 <= k < row ==> out@[k] == feature.value(k),
                    decreases n - row,
                {
                    let x = feature.value_at(row);
                    out.push(x);
                    row += 1;
                }
                assert(out@ =~= feature.column());
                out
            },
        }
    }

    /// Whether the column belongs in a sample of `n` rows.
    #[verifier::loop_isolation(false)]
    pub fn check(&self, n: usize) -> (r: bool)
        ensures
            r == self.fits(n as nat),
    {
        match self {
            Feature::Dense(f) => f.sample.len() == n,
            Feature::Sparse(f) => {
                if f.n_sample != n {
                    return false;
                }
                let mut e: usize = 0;
                while e < f.sample.len()
                    invariant
                        e <= f.sample@.len(),
                        forall|k: int| 0 <= k < e ==> (#[trigger] f.sample@[k]).0 < n,
                    decreases f.sample@.len() - e,
                {
                    if f.sample[e].0 >= n {
                        return false;
                    }
                    e += 1;
                }
                true
            },
        }
    }

    /// The number of rows the column stands for.
    pub fn len_rows(&self) -> (r: usize)
        ensures
            r == self.rows(),
    {
        match self {
            Feature::Dense(f) => f.sample.len(),
            Feature::Sparse(f) => f.n_sample,
        }
    }
}

/// The character that writes the digit `d`.
pub open spec fn digit_char(d: nat) -> char {
    if d == 0 {
        '0'
    } else if d == 1 {
        '1'
    } else if d == 2 {
        '2'
    } else if d == 3 {
        '3'
    } else if d == 4 {
        '4'
    } else if d == 5 {
        '5'
    } else if d == 6 {
        '6'
    } else if d == 7 {
        '7'
    } else if d == 8 {
        '8'
    } else {
        '9'
    }
}

/// The digits that write `k` in base ten, without leading zeros.
pub open spec fn decimal(k: nat) -> Seq<char>
    decreases k,
{
    if k < 10 {
        seq![digit_char(k)]
    } else {
        decimal(k / 10).push(digit_char(k % 10))
    }
}

/// The name that a column without a name of its own gets from its
/// number: `Feat. [k]`.
pub open spec fn numbered_name(k: nat) -> Seq<char> {
    seq!['F', 'e', 'a', 't', '.', ' ', '['] + decimal(k) + seq![']']
}

/// The digit `d`, written out.
fn digit_str(d: usize) -> (r: &'static str)
    requires
        d < 10,
    ensures
        r@ == seq![digit_char(d as nat)],
{
    proof {
        reveal_strlit("0");
        reveal_strlit("1");
        reveal_strlit("2");
        reveal_strlit("3");
        reveal_strlit("4");
        reveal_strlit("5");
        reveal_strlit("6");
        reveal_strlit("7");
        reveal_strlit("8");
        reveal_strlit("9");
    }
    let r = if d == 0 {
        "0"
    } else if d == 1 {
        "1"
    } else if d == 2 {
        "2"
    } else if d == 3 {
        "3"
    } else if d == 4 {
        "4"
    } else if d == 5 {
        "5"
    } else if d == 6 {
        "6"
    } else if d == 7 {
        "7"
    } else if d == 8 {
        "8"
    } else {
        "9"
    };
    assert(r@ =~= seq![digit_char(d as nat)]);
    r
}

/// Appends the digits of `k` to `text`.
fn push_decimal(text: &mut String, k: usize)
    ensures
        final(text)@ == old(text)@ + decimal(k as nat),
    decreases k,
{
    if k >= 10 {
        push_decimal(text, k / 10);
    }
    text.append(digit_str(k % 10));
    assert(text@ =~= old(text)@ + decimal(k as nat));
}

/// The number `k` written in base ten.
pub fn decimal_string(k: usize) -> (r: String)
    ensures
        r@ == decimal(k as nat),
{
    let mut text: String = String::new();
    push_decimal(&mut text, k);
    assert(text@ =~= decimal(k as nat));
    text
}

/// The name of column number `k`: `Feat. [k]`.
pub fn feature_name(k: usize) -> (r: String)
    ensures
        r@ == numbered_name(k as nat),
{
    proof {
        reveal_strlit("Feat. [");
        reveal_strlit("]");
    }
    let mut name: String = String::from_str("Feat. [");
    assert(name@ =~= seq!['F', 'e', 'a', 't', '.', ' ', '[']);
    push_decimal(&mut name, k);
    name.append("]");
    assert(name@ =~= numbered_name(k as nat));
    name
}

/// Wraps every dense column as a feature, in parallel. This is rayon's
/// `into_par_iter`, `map` and `collect` into a vector, which keeps the
/// items in their order.
#[verifier::external_body]
pub(crate) fn dense_features(columns: Vec<DenseFeature>) -> (r: Vec<Feature>)
    ensures
        r@.len() == columns@.len(),
        forall|k: int| 0 <= k < columns@.len() ==> r@[k] == Feature::Dense(#[trigger] columns@[k]),
{
    columns.into_par_iter().map(Feature::dense).collect()
}

impl Feature {
    /// The feature that is the dense column `column`.
    pub fn dense(column: DenseFeature) -> (r: Feature)
        ensures
            r == Feature::Dense(column),
    {
        Feature::Dense(column)
    }
}


} // verus!
