//! The training sample: named feature columns and a target vector.
pub mod feature;
pub mod text;

use crate::sample::feature::dense_features;
use crate::sample::feature::feature_name;
use crate::sample::feature::numbered_name;
use crate::sample::feature::DenseFeature;
use crate::sample::feature::Feature;
use crate::sample::feature::SparseFeature;
use crate::scalar::Scalar;
use crate::scalar::NEG_ONE_BITS;
use crate::scalar::ONE_BITS;
use vstd::prelude::*;

verus! {

/// Why a sample could not be built or changed.
#[derive(Clone, Copy, Debug, PartialEq, Eq, Structural)]
pub enum SampleError {
    /// The feature at this position does not stand for as many rows as
    /// the target has, or names a row beyond them.
    Column(usize),
    /// The record at this position has more or fewer fields than the
    /// sample has columns.
    Record(usize),
    /// The record at this position names a feature index that no column
    /// can have.
    Index(usize),
    /// No feature has the name asked for as the target.
    MissingTarget,
    /// The number of names differs from the number of features.
    NameCount,
}

/// A batch sample.
pub struct Sample {
    features: Vec<Feature>,
    target: Vec<Scalar>,
    n_sample: usize,
    n_feature: usize,
}

/// The position of the first feature from `start` on that is called
/// `name`, or the number of features where there is none.
pub open spec fn position_of(features: Seq<Feature>, name: Seq<char>, start: int) -> int
    decreases features.len() - start,
{
    if start < 0 || start >= features.len() {
        features.len() as int
    } else if features[start].name_view() == name {
        start
    } else {
        position_of(features, name, start + 1)
    }
}

/// The position of the last feature before `end` that is called `name`,
/// or `-1` where there is none.
pub open spec fn last_position_of(features: Seq<Feature>, name: Seq<char>, end: int) -> int
    decreases end,
{
    if end <= 0 || end > features.len() {
        -1
    } else if features[end - 1].name_view() == name {
        end - 1
    } else {
        last_position_of(features, name, end - 1)
    }
}

/// The first `upto` features without those that store no value.
pub open spec fn stored_columns(features: Seq<Feature>, upto: int) -> Seq<Feature>
    decreases upto,
{
    if upto <= 0 || upto > features.len() {
        Seq::empty()
    } else if features[upto - 1].stored() > 0 {
        stored_columns(features, upto - 1).push(features[upto - 1])
    } else {
        stored_columns(features, upto - 1)
    }
}

impl Sample {
    /// The feature columns.
    pub closed spec fn columns(&self) -> Seq<Feature> {
        self.features@
    }

    /// The target vector; empty until a target is set.
    pub closed spec fn labels(&self) -> Seq<Scalar> {
        self.target@
    }

    /// The number of rows.
    pub closed spec fn rows(&self) -> nat {
        self.n_sample as nat
    }

    /// The number of feature columns.
    pub closed spec fn width(&self) -> nat {
        self.n_feature as nat
    }

    /// Every column stands for as many rows as the sample has, and the
    /// target, once set, has one entry per row.
    pub open spec fn wf(&self) -> bool {
        &&& self.width() == self.columns().len()
        &&& forall|k: int| 0 <= k < self.columns().len() ==> (#[trigger] self.columns()[k]).fits(self.rows())
        &&& (self.labels().len() == self.rows() || self.labels().len() == 0)
    }

    /// Whether every row has a target value.
    pub open spec fn has_target(&self) -> bool {
        self.labels().len() == self.rows()
    }

    /// Whether every target value is `1` or `-1`.
    pub open spec fn binary(&self) -> bool {
        forall|i: int| 0 <= i < self.labels().len() ==> {
            ||| (#[trigger] self.labels()[i]).same(Scalar { bits: ONE_BITS })
            ||| self.labels()[i].same(Scalar { bits: NEG_ONE_BITS })
        }
    }

    /// A sample of the given columns and target vector, with one row per
    /// target value. Fails on the first column that does not fit that
    /// many rows.
    pub fn new(features: Vec<Feature>, target: Vec<Scalar>) -> (r: Result<Sample, SampleError>)
        ensures
            match r {
                Ok(s) => {
                    &&& s.wf()
                    &&& s.has_target()
                    &&& s.columns() == features@
                    &&& s.labels() == target@
                    &&& s.rows() == target@.len()
                    &&& forall|k: int| 0 <= k < features@.len() ==> (#[trigger] features@[k]).fits(target@.len())
                },
                Err(e) => exists|k: int|
                    {
                        &&& 0 <= k < features@.len()
                        &&& e == SampleError::Column(k as usize)
                        &&& !(#[trigger] features@[k]).fits(target@.len())
                        &&& forall|j: int| 0 <= j < k ==> (#[trigger] features@[j]).fits(target@.len())
                    },
            },
    {
        let n_sample: usize = target.len();
        let n_feature: usize = features.len();
        let mut k: usize = 0;
        while k < n_feature
            invariant
                n_feature == features@.len(),
                n_sample == target@.len(),
                k <= n_feature,
                forall|j: int| 0 <= j < k ==> (#[trigger] features@[j]).fits(n_sample as nat),
            decreases n_feature - k,
        {
            if !features[k].check(n_sample) {
                return Err(SampleError::Column(k));
            }
            k += 1;
        }
        Ok(Sample { features, target, n_sample, n_feature })
    }

    /// The number of rows and the number of feature columns.
    pub fn shape(&self) -> (r: (usize, usize))
        ensures
            r.0 == self.rows(),
            r.1 == self.width(),
    {
        (self.n_sample, self.n_feature)
    }

    /// The target vector.
    pub fn target(&self) -> (r: &Vec<Scalar>)
        ensures
            r@ == self.labels(),
    {
        &self.target
    }

    /// The target vector, to write to. A slice keeps its length, so
    /// the sample stays as well-formed as it was.
    pub fn target_mut(&mut self) -> (r: &mut [Scalar])
        ensures
            r@ == old(self).labels(),
            final(self).labels() == final(r)@,
            final(self).columns() == old(self).columns(),
            final(self).rows() == old(self).rows(),
            final(self).width() == old(self).width(),
    {
        self.target.as_mut_slice()
    }

    /// Writes the target value of row `idx`.
    pub fn set_target_at(&mut self, idx: usize, y: Scalar)
        requires
            idx < old(self).labels().len(),
        ensures
            final(self).labels() == old(self).labels().update(idx as int, y),
            final(self).columns() == old(self).columns(),
            final(self).rows() == old(self).rows(),
            final(self).width() == old(self).width(),
            old(self).wf() ==> final(self).wf(),
    {
        self.target[idx] = y;
    }

    /// The feature columns.
    pub fn features(&self) -> (r: &Vec<Feature>)
        ensures
            r@ == self.columns(),
    {
        &self.features
    }

    /// Row `idx`: its value in every column, and its target value.
    pub fn at(&self, idx: usize) -> (r: (Vec<Scalar>, Scalar))
        requires
            self.wf(),
            self.has_target(),
            idx < self.rows(),
        ensures
            r.0@.len() == self.width(),
            forall|k: int| 0 <= k < self.width() ==> r.0@[k] == (#[trigger] self.columns()[k]).value(idx as int),
            r.1 == self.labels()[idx as int],
    {
        let mut x: Vec<Scalar> = Vec::new();
        let mut k: usize = 0;
        while k < self.features.len()
            invariant
                self.wf(),
                idx < self.rows(),
                k <= self.features@.len(),
                x@.len() == k,
                forall|j: int| 0 <= j < k ==> x@[j] == (#[trigger] self.features@[j]).value(idx as int),
            decreases self.features@.len() - k,
        {
            assert(self.columns()[k as int].fits(self.rows()));
            let v = self.features[k].value_at(idx);
            x.push(v);
            k += 1;
        }
        (x, self.target[idx])
    }

    /// Whether every target value is `1` or `-1`.
    #[verifier::loop_isolation(false)]
    pub fn is_valid_binary_instance(&self) -> (r: bool)
        ensures
            r == self.binary(),
    {
        let mut i: usize = 0;
        while i < self.target.len()
            invariant
                i <= self.target@.len(),
                forall|j: int| 0 <= j < i ==> {
                    ||| (#[trigger] self.target@[j]).same(Scalar { bits: ONE_BITS })
                    ||| self.target@[j].same(Scalar { bits: NEG_ONE_BITS })
                },
            decreases self.target@.len() - i,
        {
            let y: Scalar = self.target[i];
            if !y.equals(Scalar::one()) && !y.equals(Scalar::neg_one()) {
                assert(self.labels()[i as int] == y);
                return false;
            }
            i += 1;
        }
        true
    }
}

impl Sample {
    /// Makes the first feature called `name` the target: the column
    /// leaves the features and its values, row by row, become the target
    /// vector. Fails, and only then, where no feature has that name.
    pub fn set_target(self, name: &str) -> (r: Result<Sample, SampleError>)
        requires
            self.wf(),
        ensures
            ({
                let pos = position_of(self.columns(), name@, 0);
                match r {
                    Ok(s) => {
                        &&& 0 <= pos < self.columns().len()
                        &&& s.wf()
                        &&& s.has_target()
                        &&& s.rows() == self.rows()
                        &&& s.columns() == self.columns().remove(pos)
                        &&& s.labels() == self.columns()[pos].column()
                    },
                    Err(e) => e == SampleError::MissingTarget && pos == self.columns().len(),
                }
            }),
    {
        let wanted: String = String::from_str(name);
        let mut this = self;
        let ghost before = this.features@;
        let mut pos: usize = 0;
        while pos < this.features.len()
            invariant
                this.features@ == before,
                wanted@ == name@,
                pos <= before.len(),
                position_of(before, name@, 0) == position_of(before, name@, pos as int),
            ensures
                pos <= before.len(),
                position_of(before, name@, 0) == pos,
            decreases before.len() - pos,
        {
            if *this.features[pos].name() == wanted {
                break;
            }
            pos += 1;
        }
        if pos == this.features.len() {
            return Err(SampleError::MissingTarget);
        }
        let column: Feature = this.features.remove(pos);
        proof {
            assert(column == before[pos as int]);
            assert(column.fits(this.rows()));
            assert forall|k: int| 0 <= k < this.features@.len() implies (#[trigger] this.features@[k]).fits(
                this.rows(),
            ) by {
                if k < pos {
                    assert(this.features@[k] == before[k]);
                } else {
                    assert(this.features@[k] == before[k + 1]);
                }
            }
        }
        let target: Vec<Scalar> = column.into_target();
        this.target = target;
        this.n_feature = this.features.len();
        Ok(this)
    }

    /// The last feature called `name`, if there is one.
    pub fn get(&self, name: &str) -> (r: Option<&Feature>)
        ensures
            ({
                let pos = last_position_of(self.columns(), name@, self.columns().len() as int);
                match r {
                    Some(f) => 0 <= pos < self.columns().len() && *f == self.columns()[pos],
                    None => pos == -1,
                }
            }),
    {
        let wanted: String = String::from_str(name);
        let n: usize = self.features.len();
        let mut end: usize = n;
        while end > 0
            invariant
                n == self.features@.len(),
                wanted@ == name@,
                end <= n,
                last_position_of(self.features@, name@, n as int) == last_position_of(
                    self.features@,
                    name@,
                    end as int,
                ),
            decreases end,
        {
            if *self.features[end - 1].name() == wanted {
                return Some(&self.features[end - 1]);
            }
            end -= 1;
        }
        None
    }

    /// Gives the features new names, in order, and hands back the old
    /// ones. Fails, and changes nothing, where the number of names
    /// differs from the number of features.
    pub fn replace_names(&mut self, names: Vec<String>) -> (r: Result<Vec<String>, SampleError>)
        requires
            old(self).wf(),
        ensures
            final(self).wf(),
            final(self).rows() == old(self).rows(),
            final(self).width() == old(self).width(),
            final(self).labels() == old(self).labels(),
            final(self).columns().len() == old(self).columns().len(),
            match r {
                Ok(old_names) => {
                    &&& names@.len() == old(self).columns().len()
                    &&& old_names@.len() == names@.len()
                    &&& forall|k: int|
                        0 <= k < names@.len() ==> {
                            &&& (#[trigger] old_names@[k])@ == old(self).columns()[k].name_view()
                            &&& final(self).columns()[k].name_view() == names@[k]@
                            &&& old(self).columns()[k].renamed(final(self).columns()[k])
                        }
                },
                Err(e) => {
                    &&& e == SampleError::NameCount
                    &&& names@.len() != old(self).columns().len()
                    &&& final(self).columns() == old(self).columns()
                },
            },
    {
        let n: usize = self.features.len();
        if names.len() != n {
            return Err(SampleError::NameCount);
        }
        let mut old_names: Vec<String> = Vec::new();
        let mut k: usize = 0;
        while k < n
            invariant
                n == names@.len(),
                self.features@.len() == n,
                old(self).features@.len() == n,
                self.n_sample == old(self).n_sample,
                self.n_feature == old(self).n_feature,
                self.target@ == old(self).target@,
                k <= n,
                old_names@.len() == k,
                forall|j: int| 0 <= j < n ==> (#[trigger] self.features@[j]).fits(self.n_sample as nat),
                forall|j: int| k <= j < n ==> (#[trigger] self.features@[j]) == old(self).features@[j],
                forall|j: int|
                    0 <= j < k ==> (#[trigger] old_names@[j])@ == old(self).features@[j].name_view(),
                forall|j: int|
                    0 <= j < k ==> (#[trigger] self.features@[j]).name_view() == names@[j]@,
                forall|j: int|
                    0 <= j < k ==> old(self).features@[j].renamed(#[trigger] self.features@[j]),
            decreases n - k,
        {
            let ghost columns = self.features@;
            let ghost taken = old_names@;
            let name: String = names[k].clone();
            let previous: String = self.features[k].replace_name(name);
            old_names.push(previous);
            proof {
                assert(columns[k as int] == old(self).features@[k as int]);
                assert(columns[k as int].fits(self.n_sample as nat));
                assert forall|j: int| 0 <= j < n && j != k implies #[trigger] self.features@[j]
                    == columns[j] by {}
                assert forall|j: int| 0 <= j < k + 1 implies (#[trigger] old_names@[j])@ == old(
                    self,
                ).features@[j].name_view() by {
                    if j < k {
                        assert(old_names@[j] == taken[j]);
                    }
                }
            }
            k += 1;
        }
        proof {
            assert forall|j: int| 0 <= j < names@.len() implies {
                &&& (#[trigger] old_names@[j])@ == old(self).columns()[j].name_view()
                &&& self.columns()[j].name_view() == names@[j]@
                &&& old(self).columns()[j].renamed(self.columns()[j])
            } by {
                assert(self.features@[j].name_view() == names@[j]@);
            }
        }
        Ok(old_names)
    }

    /// Drops the columns that store no value.
    pub fn remove_allzero_features(&mut self)
        requires
            old(self).wf(),
        ensures
            final(self).wf(),
            final(self).rows() == old(self).rows(),
            final(self).labels() == old(self).labels(),
            final(self).columns() == stored_columns(
                old(self).columns(),
                old(self).columns().len() as int,
            ),
    {
        let mut all: Vec<Feature> = Vec::new();
        std::mem::swap(&mut self.features, &mut all);
        let ghost before = all@;
        let mut kept: Vec<Feature> = Vec::new();
        for feature in it: all
            invariant
                it.seq() == before,
                kept@ == stored_columns(before, it.index() as int),
                forall|j: int| 0 <= j < before.len() ==> (#[trigger] before[j]).fits(self.n_sample as nat),
                forall|j: int| 0 <= j < kept@.len() ==> (#[trigger] kept@[j]).fits(self.n_sample as nat),
        {
            assert(before[it.index() as int].fits(self.n_sample as nat));
            if feature.len() > 0 {
                kept.push(feature);
            }
        }
        self.n_feature = kept.len();
        self.features = kept;
    }
}


/// The number of columns of a comma-separated table: that of the names
/// in its header or, without a header, that of the fields of its first
/// record.
pub open spec fn csv_width(header: Option<Vec<String>>, records: Seq<Vec<Scalar>>) -> nat {
    match header {
        Some(names) => names@.len(),
        None => if records.len() > 0 {
            records[0]@.len()
        } else {
            0
        },
    }
}

/// The name of column `c` of a comma-separated table: the one that the
/// header gives it or, without a header, `Feat. [c + 1]`.
pub open spec fn csv_name(header: Option<Vec<String>>, c: int) -> Seq<char> {
    match header {
        Some(names) => names@[c]@,
        None => numbered_name((c + 1) as nat),
    }
}

impl Sample {
    /// The sample that the records of a comma-separated table make: one
    /// row per record, one dense column per field, no target yet. Fails
    /// on the first record that has more or fewer fields than the table
    /// has columns.
    pub fn from_csv_records(header: Option<Vec<String>>, records: Vec<Vec<Scalar>>) -> (r: Result<
        Sample,
        SampleError,
    >)
        ensures
            match r {
                Ok(s) => {
                    &&& s.wf()
                    &&& s.rows() == records@.len()
                    &&& s.width() == csv_width(header, records@)
                    &&& s.labels().len() == 0
                    &&& forall|k: int|
                        0 <= k < records@.len() ==> (#[trigger] records@[k])@.len() == csv_width(
                            header,
                            records@,
                        )
                    &&& forall|c: int|
                        0 <= c < s.width() ==> {
                            &&& (#[trigger] s.columns()[c]) is Dense
                            &&& s.columns()[c].name_view() == csv_name(header, c)
                            &&& forall|row: int|
                                0 <= row < records@.len() ==> s.columns()[c].value(row)
                                    == #[trigger] records@[row]@[c]
                        }
                },
                Err(e) => exists|k: int|
                    {
                        &&& 0 <= k < records@.len()
                        &&& e == SampleError::Record(k as usize)
                        &&& (#[trigger] records@[k])@.len() != csv_width(header, records@)
                        &&& forall|j: int|
                            0 <= j < k ==> (#[trigger] records@[j])@.len() == csv_width(
                                header,
                                records@,
                            )
                    },
            },
    {
        let n_sample: usize = records.len();
        let width: usize = match &header {
            Some(names) => names.len(),
            None => if n_sample > 0 {
                records[0].len()
            } else {
                0
            },
        };
        let mut columns: Vec<DenseFeature> = Vec::new();
        let mut c: usize = 0;
        while c < width
            invariant
                width == csv_width(header, records@),
                c <= width,
                columns@.len() == c,
                forall|k: int|
                    0 <= k < c ==> (#[trigger] columns@[k]).name@ == csv_name(header, k)
                        && columns@[k].sample@.len() == 0,
            decreases width - c,
        {
            let name: String = match &header {
                Some(names) => names[c].clone(),
                None => feature_name(c + 1),
            };
            columns.push(DenseFeature::new(name));
            c += 1;
        }
        let mut row: usize = 0;
        while row < n_sample
            invariant
                n_sample == records@.len(),
                width == csv_width(header, records@),
                row <= n_sample,
                columns@.len() == width,
                forall|j: int| 0 <= j < row ==> (#[trigger] records@[j])@.len() == width,
                forall|k: int|
                    0 <= k < width ==> {
                        &&& (#[trigger] columns@[k]).name@ == csv_name(header, k)
                        &&& columns@[k].sample@.len() == row
                        &&& forall|i: int|
                            0 <= i < row ==> columns@[k].sample@[i] == #[trigger] records@[i]@[k]
                    },
            decreases n_sample - row,
        {
            if records[row].len() != width {
                return Err(SampleError::Record(row));
            }
            let mut c: usize = 0;
            while c < width
                invariant
                    n_sample == records@.len(),
                    row < n_sample,
                    records@[row as int]@.len() == width,
                    c <= width,
                    columns@.len() == width,
                    forall|k: int|
                        0 <= k < width ==> {
                            &&& (#[trigger] columns@[k]).name@ == csv_name(header, k)
                            &&& columns@[k].sample@.len() == if k < c {
                                row + 1
                            } else {
                                row as int
                            }
                            &&& forall|i: int|
                                0 <= i < columns@[k].sample@.len() ==> columns@[k].sample@[i]
                                    == #[trigger] records@[i]@[k]
                        },
                decreases width - c,
            {
                let x: Scalar = records[row][c];
                columns[c].append(x);
                c += 1;
            }
            row += 1;
        }
        let features: Vec<Feature> = dense_features(columns);
        proof {
            assert forall|k: int| 0 <= k < features@.len() implies (#[trigger] features@[k]).fits(
                n_sample as nat,
            ) by {
                assert(features@[k] == Feature::Dense(columns@[k]));
            }
            assert forall|c: int| 0 <= c < width implies {
                &&& (#[trigger] features@[c]) is Dense
                &&& features@[c].name_view() == csv_name(header, c)
                &&& forall|row: int|
                    0 <= row < records@.len() ==> features@[c].value(row)
                        == #[trigger] records@[row]@[c]
            } by {
                assert(features@[c] == Feature::Dense(columns@[c]));
            }
        }
        Ok(Sample { features, target: Vec::new(), n_sample, n_feature: width })
    }
}


/// What the first `upto` entries of one record add to column `index`:
/// the record's row with the value of each entry for that index whose
/// value does not compare equal to zero, in order.
pub open spec fn record_entries(
    entries: Seq<(usize, Scalar)>,
    row: usize,
    index: int,
    upto: int,
) -> Seq<(usize, Scalar)>
    decreases upto,
{
    if upto <= 0 || upto > entries.len() {
        Seq::empty()
    } else if entries[upto - 1].0 == index && entries[upto - 1].1.magnitude() != 0 {
        record_entries(entries, row, index, upto - 1).push((row, entries[upto - 1].1))
    } else {
        record_entries(entries, row, index, upto - 1)
    }
}

/// What the first `upto` records add to column `index`, record after
/// record.
pub open spec fn column_entries(
    records: Seq<(Scalar, Vec<(usize, Scalar)>)>,
    index: int,
    upto: int,
) -> Seq<(usize, Scalar)>
    decreases upto,
{
    if upto <= 0 || upto > records.len() {
        Seq::empty()
    } else {
        column_entries(records, index, upto - 1) + record_entries(
            records[upto - 1].1@,
            (upto - 1) as usize,
            index,
            records[upto - 1].1@.len() as int,
        )
    }
}

/// The larger of two numbers.
pub open spec fn larger(a: nat, b: nat) -> nat {
    if a >= b {
        a
    } else {
        b
    }
}

/// One more than the largest index among the first `upto` entries of a
/// record; zero where there is none.
pub open spec fn record_width(entries: Seq<(usize, Scalar)>, upto: int) -> nat
    decreases upto,
{
    if upto <= 0 || upto > entries.len() {
        0
    } else {
        larger(record_width(entries, upto - 1), (entries[upto - 1].0 + 1) as nat)
    }
}

/// One more than the largest index among the first `upto` records; zero
/// where there is none.
pub open spec fn table_width(records: Seq<(Scalar, Vec<(usize, Scalar)>)>, upto: int) -> nat
    decreases upto,
{
    if upto <= 0 || upto > records.len() {
        0
    } else {
        larger(
            table_width(records, upto - 1),
            record_width(records[upto - 1].1@, records[upto - 1].1@.len() as int),
        )
    }
}

/// Whether `full` is the table of sparse columns that the records fill:
/// one column for every index up to the largest, called `Feat. [k]`
/// with `k` counted from one, holding what the records add to it.
pub open spec fn is_sparse_table(
    full: Seq<Feature>,
    records: Seq<(Scalar, Vec<(usize, Scalar)>)>,
) -> bool {
    &&& full.len() == table_width(records, records.len() as int)
    &&& forall|k: int|
        0 <= k < full.len() ==> (#[trigger] full[k] matches Feature::Sparse(f) && {
            &&& f.name@ == numbered_name((k + 1) as nat)
            &&& f.n_sample == records.len()
            &&& f.sample@ == column_entries(records, k, records.len() as int)
        })
}

/// A record adds nothing to a column beyond its width.
pub proof fn lemma_record_entries_beyond(
    entries: Seq<(usize, Scalar)>,
    row: usize,
    index: int,
    upto: int,
)
    requires
        index >= record_width(entries, upto),
    ensures
        record_entries(entries, row, index, upto) == Seq::<(usize, Scalar)>::empty(),
    decreases upto,
{
    if 0 < upto <= entries.len() {
        lemma_record_entries_beyond(entries, row, index, upto - 1);
    }
}

/// The records add nothing to a column beyond their width.
pub proof fn lemma_column_entries_beyond(
    records: Seq<(Scalar, Vec<(usize, Scalar)>)>,
    index: int,
    upto: int,
)
    requires
        index >= table_width(records, upto),
    ensures
        column_entries(records, index, upto) == Seq::<(usize, Scalar)>::empty(),
    decreases upto,
{
    if 0 < upto <= records.len() {
        lemma_column_entries_beyond(records, index, upto - 1);
        lemma_record_entries_beyond(
            records[upto - 1].1@,
            (upto - 1) as usize,
            index,
            records[upto - 1].1@.len() as int,
        );
        assert(column_entries(records, index, upto) =~= Seq::<(usize, Scalar)>::empty());
    }
}

impl Sample {
    /// The sample that the records of a sparse table make. A record is a
    /// target value and a list of pairs of a feature index and a value.
    /// There is one row per record and one sparse column per index that
    /// some record gives a value other than zero. Fails on the first
    /// record that names the largest index a machine word can hold,
    /// which no column can have.
    pub fn from_svmlight_records(records: Vec<(Scalar, Vec<(usize, Scalar)>)>) -> (r: Result<
        Sample,
        SampleError,
    >)
        ensures
            match r {
                Ok(s) => {
                    &&& s.wf()
                    &&& s.has_target()
                    &&& s.rows() == records@.len()
                    &&& forall|i: int|
                        0 <= i < records@.len() ==> s.labels()[i] == (#[trigger] records@[i]).0
                    &&& forall|j: int, e: int|
                        0 <= j < records@.len() && 0 <= e < records@[j].1@.len() ==> (
                        #[trigger] records@[j].1@[e]).0 < usize::MAX
                    &&& exists|full: Seq<Feature>|
                        {
                            &&& #[trigger] is_sparse_table(full, records@)
                            &&& s.columns() == stored_columns(full, full.len() as int)
                        }
                },
                Err(e) => exists|k: int, x: int|
                    {
                        &&& 0 <= k < records@.len()
                        &&& 0 <= x < records@[k].1@.len()
                        &&& e == SampleError::Index(k as usize)
                        &&& (#[trigger] records@[k].1@[x]).0 == usize::MAX
                        &&& forall|j: int, y: int|
                            0 <= j < k && 0 <= y < records@[j].1@.len() ==> (
                            #[trigger] records@[j].1@[y]).0 < usize::MAX
                    },
            },
    {
        let n: usize = records.len();
        let mut columns: Vec<SparseFeature> = Vec::new();
        let mut target: Vec<Scalar> = Vec::new();
        let mut row: usize = 0;
        while row < n
            invariant
                n == records@.len(),
                row <= n,
                target@.len() == row,
                forall|i: int| 0 <= i < row ==> target@[i] == (#[trigger] records@[i]).0,
                columns@.len() == table_width(records@, row as int),
                forall|k: int|
                    0 <= k < columns@.len() ==> {
                        &&& (#[trigger] columns@[k]).name@ == numbered_name((k + 1) as nat)
                        &&& columns@[k].n_sample == 0
                        &&& columns@[k].sample@ == column_entries(records@, k, row as int)
                    },
                forall|k: int, e: int|
                    0 <= k < columns@.len() && 0 <= e < columns@[k].sample@.len() ==> (
                    #[trigger] columns@[k].sample@[e]).0 < row,
                forall|j: int, y: int|
                    0 <= j < row && 0 <= y < records@[j].1@.len() ==> (
                    #[trigger] records@[j].1@[y]).0 < usize::MAX,
            decreases n - row,
        {
            target.push(records[row].0);
            let ghost entries = records@[row as int].1@;
            let count: usize = records[row].1.len();
            let mut e: usize = 0;
            while e < count
                invariant
                    n == records@.len(),
                    row < n,
                    entries == records@[row as int].1@,
                    count == entries.len(),
                    e <= count,
                    columns@.len() == larger(
                        table_width(records@, row as int),
                        record_width(entries, e as int),
                    ),
                    forall|k: int|
                        0 <= k < columns@.len() ==> {
                            &&& (#[trigger] columns@[k]).name@ == numbered_name((k + 1) as nat)
                            &&& columns@[k].n_sample == 0
                            &&& columns@[k].sample@ == column_entries(records@, k, row as int)
                                + record_entries(entries, row, k, e as int)
                        },
                    forall|k: int, x: int|
                        0 <= k < columns@.len() && 0 <= x < columns@[k].sample@.len() ==> (
                        #[trigger] columns@[k].sample@[x]).0 <= row,
                    forall|y: int| 0 <= y < e ==> (#[trigger] entries[y]).0 < usize::MAX,
                    forall|j: int, y: int|
                        0 <= j < row && 0 <= y < records@[j].1@.len() ==> (
                        #[trigger] records@[j].1@[y]).0 < usize::MAX,
                decreases count - e,
            {
                let entry: (usize, Scalar) = records[row].1[e];
                let index: usize = entry.0;
                let value: Scalar = entry.1;
                if index == usize::MAX {
                    assert(records@[row as int].1@[e as int].0 == usize::MAX);
                    return Err(SampleError::Index(row));
                }
                let ghost width = columns@.len();
                while columns.len() <= index
                    invariant
                        index < usize::MAX,
                        row < n,
                        width <= columns@.len(),
                        columns@.len() <= larger(width, (index + 1) as nat),
                        width == larger(
                            table_width(records@, row as int),
                            record_width(entries, e as int),
                        ),
                        forall|k: int|
                            0 <= k < columns@.len() ==> {
                                &&& (#[trigger] columns@[k]).name@ == numbered_name((k + 1) as nat)
                                &&& columns@[k].n_sample == 0
                                &&& columns@[k].sample@ == column_entries(records@, k, row as int)
                                    + record_entries(entries, row, k, e as int)
                            },
                        forall|k: int, x: int|
                            0 <= k < columns@.len() && 0 <= x < columns@[k].sample@.len() ==> (
                            #[trigger] columns@[k].sample@[x]).0 <= row,
                    decreases usize::MAX - columns@.len(),
                {
                    let position: usize = columns.len();
                    let fresh: SparseFeature = SparseFeature::new(feature_name(position + 1));
                    proof {
                        lemma_column_entries_beyond(records@, position as int, row as int);
                        lemma_record_entries_beyond(entries, row, position as int, e as int);
                        assert(fresh.sample@ =~= column_entries(records@, position as int, row as int)
                            + record_entries(entries, row, position as int, e as int));
                    }
                    columns.push(fresh);
                }
                let ghost grown = columns@;
                columns[index].append(row, value);
                proof {
                    assert forall|k: int| 0 <= k < columns@.len() implies {
                        &&& (#[trigger] columns@[k]).name@ == numbered_name((k + 1) as nat)
                        &&& columns@[k].n_sample == 0
                        &&& columns@[k].sample@ == column_entries(records@, k, row as int)
                            + record_entries(entries, row, k, e as int + 1)
                    } by {
                        let had = column_entries(records@, k, row as int);
                        let part = record_entries(entries, row, k, e as int);
                        if k == index {
                            assert(grown[k].sample@ == had + part);
                            if value.magnitude() != 0 {
                                assert((had + part).push((row, value)) =~= had + part.push(
                                    (row, value),
                                ));
                            }
                        } else {
                            assert(columns@[k] == grown[k]);
                        }
                    }
                    assert forall|k: int, x: int|
                        0 <= k < columns@.len() && 0 <= x < columns@[k].sample@.len() implies (
                    #[trigger] columns@[k].sample@[x]).0 <= row by {
                        if k == index {
                            if x < grown[k].sample@.len() {
                                assert(columns@[k].sample@[x] == grown[k].sample@[x]);
                            }
                        } else {
                            assert(columns@[k] == grown[k]);
                        }
                    }
                }
                e += 1;
            }
            proof {
                assert forall|k: int| 0 <= k < columns@.len() implies (
                #[trigger] columns@[k]).sample@ == column_entries(records@, k, row as int + 1) by {}
            }
            row += 1;
        }
        let ghost filled = columns@;
        let mut features: Vec<Feature> = Vec::new();
        for column in it: columns
            invariant
                it.seq() == filled,
                n == records@.len(),
                features@.len() == it.index(),
                forall|k: int|
                    0 <= k < filled.len() ==> {
                        &&& (#[trigger] filled[k]).name@ == numbered_name((k + 1) as nat)
                        &&& filled[k].sample@ == column_entries(records@, k, n as int)
                    },
                forall|k: int, e: int|
                    0 <= k < filled.len() && 0 <= e < filled[k].sample@.len() ==> (
                    #[trigger] filled[k].sample@[e]).0 < n,
                forall|k: int|
                    0 <= k < features@.len() ==> (#[trigger] features@[k] matches Feature::Sparse(f)
                        && {
                        &&& f.name@ == numbered_name((k + 1) as nat)
                        &&& f.n_sample == n
                        &&& f.sample@ == column_entries(records@, k, n as int)
                    }),
                forall|k: int| 0 <= k < features@.len() ==> (#[trigger] features@[k]).fits(n as nat),
        {
            let ghost at = it.index() as int;
            let mut column = column;
            column.n_sample = n;
            proof {
                assert(column.sample@ == filled[at].sample@);
                assert forall|e: int| 0 <= e < column.sample@.len() implies (
                #[trigger] column.sample@[e]).0 < n by {
                    assert(filled[at].sample@[e].0 < n);
                }
            }
            features.push(Feature::Sparse(column));
        }
        let n_feature: usize = features.len();
        let ghost full = features@;
        let mut sample = Sample { features, target, n_sample: n, n_feature };
        assert(is_sparse_table(full, records@));
        sample.remove_allzero_features();
        Ok(sample)
    }
}


} // verus!
