//! The fact lattice: what is known so far about an element type, a
//! dimension, a rank, a shape, a value, or a whole tensor.
//!
//! Every fact is either exact or leaves something open. Two facts about the
//! same thing are combined by `unify`, which keeps what either one knows and
//! fails when they contradict each other.

use vstd::prelude::*;
use crate::dim::TDim;
use crate::errors::{TractError, TractResult};
use crate::tensor::{usize_to_i64, DatumType, Tensor, TensorValue};

verus! {

/// Partial information about a value: none at all, or the value itself.
#[derive(Clone, Copy, Debug, PartialEq, Eq)]
pub enum GenericFact<T> {
    Any,
    Only(T),
}

impl<T: View> View for GenericFact<T> {
    type V = GenericFact<T::V>;

    open spec fn view(&self) -> GenericFact<T::V> {
        match *self {
            GenericFact::Any => GenericFact::Any,
            GenericFact::Only(v) => GenericFact::Only(v@),
        }
    }
}

/// What is known about the element type of a tensor.
pub type TypeFact = GenericFact<DatumType>;

/// What is known about one dimension of a tensor.
pub type DimFact = GenericFact<TDim>;

/// What is known about an integer, such as the rank of a tensor.
pub type IntFact = GenericFact<i64>;

/// What is known about the value of a tensor.
pub type ValueFact = GenericFact<Tensor>;

impl<T> GenericFact<T> {
    /// The meet of two facts: `Any` gives way to the other fact, two equal
    /// exact values stay, two different exact values contradict (`None`).
    pub open spec fn unify_spec(self, other: Self) -> Option<Self> {
        match (self, other) {
            (GenericFact::Any, _) => Some(other),
            (_, GenericFact::Any) => Some(self),
            (GenericFact::Only(a), GenericFact::Only(b)) => if a == b {
                Some(self)
            } else {
                None
            },
        }
    }

    /// The exact value, if the fact holds one.
    pub open spec fn concretize_spec(self) -> Option<T> {
        match self {
            GenericFact::Any => None,
            GenericFact::Only(v) => Some(v),
        }
    }

    /// Whether the fact is exact.
    pub fn is_concrete(&self) -> (r: bool)
        ensures
            r == (*self is Only),
    {
        match self {
            GenericFact::Any => false,
            GenericFact::Only(_) => true,
        }
    }
}

/// Whether `r` is the outcome of a unification whose meet is `meet`: the
/// meet itself, or the error `kind` when there is none.
pub open spec fn unified<F: View>(r: TractResult<F>, meet: Option<F::V>, kind: TractError) -> bool {
    match meet {
        Some(m) => r matches Ok(f) && f@ == m,
        None => r matches Err(e) && e == kind,
    }
}

impl GenericFact<DatumType> {
    /// Combines two type facts; fails with `TypeMismatch` exactly when both
    /// are exact and differ.
    pub fn unify(&self, other: &TypeFact) -> (r: TractResult<TypeFact>)
        ensures
            unified(r, self@.unify_spec(other@), TractError::TypeMismatch),
    {
        match (self, other) {
            (GenericFact::Any, _) => Ok(*other),
            (_, GenericFact::Any) => Ok(*self),
            (GenericFact::Only(a), GenericFact::Only(b)) => if *a == *b {
                Ok(*self)
            } else {
                Err(TractError::TypeMismatch)
            },
        }
    }

    /// The exact element type, if it is known.
    pub fn concretize(&self) -> (r: Option<DatumType>)
        ensures
            r == self.concretize_spec(),
            r is Some <==> *self is Only,
    {
        match self {
            GenericFact::Any => None,
            GenericFact::Only(v) => Some(*v),
        }
    }
}

impl GenericFact<TDim> {
    /// Combines two dimension facts; fails with `ShapeMismatch` exactly when
    /// both are exact and differ.
    pub fn unify(&self, other: &DimFact) -> (r: TractResult<DimFact>)
        ensures
            unified(r, self@.unify_spec(other@), TractError::ShapeMismatch),
            r matches Ok(f) ==> Some(f) == self.unify_spec(*other),
            r is Err <==> self.unify_spec(*other) is None,
    {
        match (self, other) {
            (GenericFact::Any, _) => Ok(*other),
            (_, GenericFact::Any) => Ok(*self),
            (GenericFact::Only(a), GenericFact::Only(b)) => if *a == *b {
                Ok(*self)
            } else {
                Err(TractError::ShapeMismatch)
            },
        }
    }

    /// The exact dimension, if it is known.
    pub fn concretize(&self) -> (r: Option<TDim>)
        ensures
            r == self.concretize_spec(),
            r is Some <==> *self is Only,
    {
        match self {
            GenericFact::Any => None,
            GenericFact::Only(v) => Some(*v),
        }
    }
}

impl GenericFact<i64> {
    /// Combines two integer facts; fails with `ShapeMismatch` exactly when
    /// both are exact and differ.
    pub fn unify(&self, other: &IntFact) -> (r: TractResult<IntFact>)
        ensures
            unified(r, self@.unify_spec(other@), TractError::ShapeMismatch),
            r matches Ok(f) ==> Some(f) == self.unify_spec(*other),
            r is Err <==> self.unify_spec(*other) is None,
    {
        match (self, other) {
            (GenericFact::Any, _) => Ok(*other),
            (_, GenericFact::Any) => Ok(*self),
            (GenericFact::Only(a), GenericFact::Only(b)) => if *a == *b {
                Ok(*self)
            } else {
                Err(TractError::ShapeMismatch)
            },
        }
    }

    /// The exact integer, if it is known.
    pub fn concretize(&self) -> (r: Option<i64>)
        ensures
            r == self.concretize_spec(),
            r is Some <==> *self is Only,
    {
        match self {
            GenericFact::Any => None,
            GenericFact::Only(v) => Some(*v),
        }
    }
}

impl GenericFact<Tensor> {
    /// A copy of the fact.
    pub fn duplicate(&self) -> (r: ValueFact)
        ensures
            r@ == self@,
    {
        match self {
            GenericFact::Any => GenericFact::Any,
            GenericFact::Only(t) => GenericFact::Only(t.clone()),
        }
    }

    /// Combines two value facts; fails with `ContradictoryFact` exactly when
    /// both are exact and differ.
    pub fn unify(&self, other: &ValueFact) -> (r: TractResult<ValueFact>)
        ensures
            unified(r, self@.unify_spec(other@), TractError::ContradictoryFact),
    {
        match (self, other) {
            (GenericFact::Any, _) => Ok(other.duplicate()),
            (_, GenericFact::Any) => Ok(self.duplicate()),
            (GenericFact::Only(a), GenericFact::Only(b)) => if a.same_as(b) {
                Ok(self.duplicate())
            } else {
                Err(TractError::ContradictoryFact)
            },
        }
    }

    /// The exact tensor, if it is known.
    pub fn concretize(&self) -> (r: Option<Tensor>)
        ensures
            match r {
                Some(t) => self@.concretize_spec() == Some(t@) && t@.wf(),
                None => self@.concretize_spec() is None,
            },
            r is Some <==> *self is Only,
    {
        match self {
            GenericFact::Any => None,
            GenericFact::Only(t) => {
                let copy = t.clone();
                let _ = copy.len();
                Some(copy)
            },
        }
    }
}

/// What a shape fact says: some leading dimensions, and whether more may
/// follow them.
pub struct ShapeFactValue {
    pub open: bool,
    pub dims: Seq<DimFact>,
}

impl ShapeFactValue {
    /// Two shape facts can hold of the same shape: the shorter one is open
    /// if the other is longer, and no position holds two different exact
    /// dimensions.
    pub open spec fn compatible(self, other: ShapeFactValue) -> bool {
        &&& self.dims.len() < other.dims.len() ==> self.open
        &&& other.dims.len() < self.dims.len() ==> other.open
        &&& forall|i: int|
            0 <= i < self.dims.len() && i < other.dims.len() ==> (#[trigger] self.dims[i].unify_spec(
                other.dims[i],
            )) is Some
    }

    /// What two compatible shape facts say together about position `i`.
    pub open spec fn merged_dim(self, other: ShapeFactValue, i: int) -> DimFact {
        if i < self.dims.len() && i < other.dims.len() {
            match self.dims[i].unify_spec(other.dims[i]) {
                Some(d) => d,
                None => GenericFact::Any,
            }
        } else if i < self.dims.len() {
            self.dims[i]
        } else {
            other.dims[i]
        }
    }

    /// The meet of two shape facts. Positions that both facts know are
    /// unified one by one; positions that only the longer fact knows are kept
    /// from it, which the shorter fact must be open to allow. The meet is
    /// open only if both facts are.
    pub open spec fn unify_spec(self, other: ShapeFactValue) -> Option<ShapeFactValue> {
        if self.compatible(other) {
            let len = if self.dims.len() >= other.dims.len() {
                self.dims.len()
            } else {
                other.dims.len()
            };
            Some(
                ShapeFactValue {
                    open: self.open && other.open,
                    dims: Seq::new(len, |i: int| self.merged_dim(other, i)),
                },
            )
        } else {
            None
        }
    }

    /// What the fact says of the rank: the number of dimensions of a closed
    /// shape, nothing of an open one.
    pub open spec fn rank_spec(self) -> IntFact {
        if self.open {
            GenericFact::Any
        } else {
            GenericFact::Only(self.dims.len() as i64)
        }
    }

    /// The fact fixes the shape: it is closed and every dimension is exact.
    pub open spec fn is_concrete_spec(self) -> bool {
        &&& !self.open
        &&& forall|i: int| 0 <= i < self.dims.len() ==> (#[trigger] self.dims[i]) is Only
    }

    /// The shape that a concrete fact fixes.
    pub open spec fn concretize_spec(self) -> Option<Seq<TDim>> {
        if self.is_concrete_spec() {
            Some(Seq::new(self.dims.len(), |i: int| self.dims[i]->Only_0))
        } else {
            None
        }
    }
}

/// What is known about the shape of a tensor: its leading dimensions, each
/// known or not, and whether the rank is fixed (closed) or may be larger
/// (open).
#[derive(Debug, PartialEq, Eq)]
pub struct ShapeFact {
    pub open: bool,
    pub dims: Vec<DimFact>,
}

impl View for ShapeFact {
    type V = ShapeFactValue;

    open spec fn view(&self) -> ShapeFactValue {
        ShapeFactValue { open: self.open, dims: self.dims@ }
    }
}

impl Clone for ShapeFact {
    fn clone(&self) -> (r: ShapeFact)
        ensures
            r@ == self@,
    {
        let mut dims: Vec<DimFact> = Vec::new();
        let mut i: usize = 0;
        while i < self.dims.len()
            invariant
                i <= self.dims.len(),
                dims@ =~= self.dims@.take(i as int),
            decreases self.dims.len() - i,
        {
            dims.push(self.dims[i]);
            i += 1;
        }
        assert(dims@ =~= self.dims@);
        ShapeFact { open: self.open, dims }
    }
}

impl ShapeFact {
    /// A shape of unknown rank whose leading dimensions are `dims`.
    pub fn open(dims: Vec<DimFact>) -> (r: ShapeFact)
        ensures
            r@ == (ShapeFactValue { open: true, dims: dims@ }),
    {
        ShapeFact { open: true, dims }
    }

    /// A shape whose dimensions are exactly `dims`.
    pub fn closed(dims: Vec<DimFact>) -> (r: ShapeFact)
        ensures
            r@ == (ShapeFactValue { open: false, dims: dims@ }),
    {
        ShapeFact { open: false, dims }
    }

    /// Whether the rank may be larger than the number of known dimensions.
    pub fn is_open(&self) -> (r: bool)
        ensures
            r == self@.open,
    {
        self.open
    }

    /// What is known of the rank. `None` when the rank of a closed shape does
    /// not fit in `i64`.
    pub fn rank(&self) -> (r: Option<IntFact>)
        ensures
            match r {
                Some(f) => f == self@.rank_spec() && (self@.open || self@.dims.len() <= i64::MAX),
                None => !self@.open && self@.dims.len() > i64::MAX,
            },
    {
        if self.open {
            Some(GenericFact::Any)
        } else {
            match usize_to_i64(self.dims.len()) {
                Some(rank) => Some(GenericFact::Only(rank)),
                None => None,
            }
        }
    }

    /// What is known about dimension `i`: the fact at that position, `Any`
    /// beyond the known dimensions of an open shape, and `None` beyond the
    /// rank of a closed one.
    pub fn dim(&self, i: usize) -> (r: Option<DimFact>)
        ensures
            r == self@.dim_spec(i as int),
    {
        if i < self.dims.len() {
            Some(self.dims[i])
        } else if self.open {
            Some(GenericFact::Any)
        } else {
            None
        }
    }

    /// Combines two shape facts; fails with `ShapeMismatch` exactly when they
    /// are not compatible.
    pub fn unify(&self, other: &ShapeFact) -> (r: TractResult<ShapeFact>)
        ensures
            unified(r, self@.unify_spec(other@), TractError::ShapeMismatch),
    {
        let n = self.dims.len();
        let m = other.dims.len();
        if (n < m && !self.open) || (m < n && !other.open) {
            return Err(TractError::ShapeMismatch);
        }
        let len = if n >= m {
            n
        } else {
            m
        };
        let mut dims: Vec<DimFact> = Vec::new();
        let mut i: usize = 0;
        while i < len
            invariant
                i <= len,
                n == self.dims.len(),
                m == other.dims.len(),
                len == (if n >= m {
                    n
                } else {
                    m
                }),
                dims@.len() == i,
                forall|j: int| 0 <= j < i ==> dims@[j] == self@.merged_dim(other@, j),
                forall|j: int|
                    0 <= j < i && j < n && j < m ==> (#[trigger] self.dims@[j].unify_spec(
                        other.dims@[j],
                    )) is Some,
            decreases len - i,
        {
            let d = if i < n && i < m {
                match self.dims[i].unify(&other.dims[i]) {
                    Ok(d) => d,
                    Err(_) => {
                        assert(self@.dims[i as int].unify_spec(other@.dims[i as int]) is None);
                        return Err(TractError::ShapeMismatch);
                    },
                }
            } else if i < n {
                self.dims[i]
            } else {
                other.dims[i]
            };
            dims.push(d);
            i += 1;
        }
        let r = ShapeFact { open: self.open && other.open, dims };
        proof {
            assert(self@.compatible(other@));
            assert(r@.dims =~= self@.unify_spec(other@).unwrap().dims);
        }
        Ok(r)
    }

    /// Whether the fact fixes the shape: it is closed and every dimension is
    /// exact.
    pub fn is_concrete(&self) -> (r: bool)
        ensures
            r == self@.is_concrete_spec(),
    {
        if self.open {
            return false;
        }
        let mut i: usize = 0;
        while i < self.dims.len()
            invariant
                i <= self.dims.len(),
                forall|j: int| 0 <= j < i ==> (#[trigger] self.dims@[j]) is Only,
            decreases self.dims.len() - i,
        {
            if !self.dims[i].is_concrete() {
                return false;
            }
            i += 1;
        }
        true
    }

    /// The shape that the fact fixes: a value exactly when the fact is closed
    /// and every dimension is exact.
    pub fn concretize(&self) -> (r: Option<Vec<TDim>>)
        ensures
            match r {
                Some(v) => Some(v@) == self@.concretize_spec(),
                None => self@.concretize_spec() is None,
            },
            r is Some <==> self@.is_concrete_spec(),
    {
        if self.open {
            return None;
        }
        let mut out: Vec<TDim> = Vec::new();
        let mut i: usize = 0;
        while i < self.dims.len()
            invariant
                i <= self.dims.len(),
                out@.len() == i,
                forall|j: int| 0 <= j < i ==> (#[trigger] self.dims@[j]) is Only,
                forall|j: int| 0 <= j < i ==> out@[j] == self.dims@[j]->Only_0,
            decreases self.dims.len() - i,
        {
            match self.dims[i] {
                GenericFact::Only(d) => {
                    out.push(d);
                },
                GenericFact::Any => {
                    return None;
                },
            }
            i += 1;
        }
        assert(out@ =~= self@.concretize_spec().unwrap());
        Some(out)
    }
}

impl ShapeFactValue {
    /// What the fact says of dimension `i`.
    pub open spec fn dim_spec(self, i: int) -> Option<DimFact> {
        if 0 <= i < self.dims.len() {
            Some(self.dims[i])
        } else if self.open {
            Some(GenericFact::Any)
        } else {
            None
        }
    }
}

/// Whether two type facts are the same.
pub fn same_type_fact(a: &TypeFact, b: &TypeFact) -> (r: bool)
    ensures
        r == (*a == *b),
{
    match (a, b) {
        (GenericFact::Any, GenericFact::Any) => true,
        (GenericFact::Only(x), GenericFact::Only(y)) => *x == *y,
        _ => false,
    }
}

/// Whether two dimension facts are the same.
pub fn same_dim_fact(a: &DimFact, b: &DimFact) -> (r: bool)
    ensures
        r == (*a == *b),
{
    match (a, b) {
        (GenericFact::Any, GenericFact::Any) => true,
        (GenericFact::Only(x), GenericFact::Only(y)) => *x == *y,
        _ => false,
    }
}

/// Whether two integer facts are the same.
pub fn same_int_fact(a: &IntFact, b: &IntFact) -> (r: bool)
    ensures
        r == (*a == *b),
{
    match (a, b) {
        (GenericFact::Any, GenericFact::Any) => true,
        (GenericFact::Only(x), GenericFact::Only(y)) => *x == *y,
        _ => false,
    }
}

/// Whether two value facts are the same.
pub fn same_value_fact(a: &ValueFact, b: &ValueFact) -> (r: bool)
    ensures
        r == (a@ == b@),
{
    match (a, b) {
        (GenericFact::Any, GenericFact::Any) => true,
        (GenericFact::Only(x), GenericFact::Only(y)) => x.same_as(y),
        _ => false,
    }
}

impl ShapeFactValue {
    /// The fact narrowed to the rank `r`: closed, with the dimensions known
    /// so far followed by as many unknown ones as are missing. `None` when
    /// the fact knows of more dimensions, or is closed at another rank.
    pub open spec fn with_rank(self, r: int) -> Option<ShapeFactValue> {
        if r < self.dims.len() || (!self.open && r != self.dims.len()) {
            None
        } else {
            Some(
                ShapeFactValue {
                    open: false,
                    dims: Seq::new(
                        r as nat,
                        |i: int|
                            if i < self.dims.len() {
                                self.dims[i]
                            } else {
                                GenericFact::Any
                            },
                    ),
                },
            )
        }
    }

    /// The fact with what it says of dimension `i` replaced by `d`. Where
    /// the position lies beyond the known dimensions of an open fact, the
    /// dimensions in between are unknown; an unknown `d` then changes
    /// nothing. `None` when a closed fact has no such dimension.
    pub open spec fn with_dim(self, i: int, d: DimFact) -> Option<ShapeFactValue> {
        if 0 <= i < self.dims.len() {
            Some(ShapeFactValue { open: self.open, dims: self.dims.update(i, d) })
        } else if !self.open || i < 0 {
            None
        } else if d is Any {
            Some(self)
        } else {
            Some(
                ShapeFactValue {
                    open: true,
                    dims: Seq::new(
                        (i + 1) as nat,
                        |k: int|
                            if k < self.dims.len() {
                                self.dims[k]
                            } else if k == i {
                                d
                            } else {
                                GenericFact::Any
                            },
                    ),
                },
            )
        }
    }
}

impl ShapeFact {
    /// Whether two shape facts say the same.
    pub fn same_as(&self, other: &ShapeFact) -> (r: bool)
        ensures
            r == (self@ == other@),
    {
        if self.open != other.open || self.dims.len() != other.dims.len() {
            return false;
        }
        let mut i: usize = 0;
        while i < self.dims.len()
            invariant
                i <= self.dims.len(),
                self.dims.len() == other.dims.len(),
                forall|j: int| 0 <= j < i ==> self.dims@[j] == other.dims@[j],
            decreases self.dims.len() - i,
        {
            if !same_dim_fact(&self.dims[i], &other.dims[i]) {
                return false;
            }
            i += 1;
        }
        assert(self.dims@ =~= other.dims@);
        true
    }

    /// Narrows the fact to the rank `r`. `None` exactly when the fact
    /// excludes that rank.
    pub fn with_rank(&self, r: usize) -> (out: Option<ShapeFact>)
        ensures
            match out {
                Some(s) => self@.with_rank(r as int) == Some(s@),
                None => self@.with_rank(r as int) is None,
            },
    {
        let known = self.dims.len();
        if r < known || (!self.open && r != known) {
            return None;
        }
        let mut dims: Vec<DimFact> = Vec::new();
        let mut i: usize = 0;
        while i < r
            invariant
                i <= r,
                known == self.dims.len(),
                dims@.len() == i,
                forall|j: int|
                    0 <= j < i ==> dims@[j] == (if j < known {
                        self.dims@[j]
                    } else {
                        GenericFact::Any
                    }),
            decreases r - i,
        {
            if i < known {
                dims.push(self.dims[i]);
            } else {
                dims.push(GenericFact::Any);
            }
            i += 1;
        }
        let s = ShapeFact { open: false, dims };
        assert(s@.dims =~= self@.with_rank(r as int).unwrap().dims);
        Some(s)
    }

    /// Replaces what the fact says of dimension `i` by `d`. `None` exactly
    /// when the fact is closed and has no such dimension.
    pub fn with_dim(&self, i: usize, d: DimFact) -> (out: Option<ShapeFact>)
        requires
            i < usize::MAX,
        ensures
            match out {
                Some(s) => self@.with_dim(i as int, d) == Some(s@),
                None => self@.with_dim(i as int, d) is None,
            },
    {
        let known = self.dims.len();
        if i >= known && !self.open {
            return None;
        }
        if i >= known && !d.is_concrete() {
            return Some(self.clone());
        }
        let len = if i < known {
            known
        } else {
            i + 1
        };
        let mut dims: Vec<DimFact> = Vec::new();
        let mut k: usize = 0;
        while k < len
            invariant
                k <= len,
                known == self.dims.len(),
                len == (if i < known {
                    known as int
                } else {
                    i + 1
                }),
                dims@.len() == k,
                forall|j: int|
                    0 <= j < k ==> dims@[j] == (if j == i {
                        d
                    } else if j < known {
                        self.dims@[j]
                    } else {
                        GenericFact::Any
                    }),
            decreases len - k,
        {
            if k == i {
                dims.push(d);
            } else if k < known {
                dims.push(self.dims[k]);
            } else {
                dims.push(GenericFact::Any);
            }
            k += 1;
        }
        let s = ShapeFact { open: self.open, dims };
        assert(s@.dims =~= self@.with_dim(i as int, d).unwrap().dims);
        Some(s)
    }
}

/// What a tensor fact says.
pub struct TensorFactValue {
    pub datum_type: TypeFact,
    pub shape: ShapeFactValue,
    pub value: GenericFact<TensorValue>,
}

impl TensorFactValue {
    /// The fact that knows nothing.
    pub open spec fn any() -> TensorFactValue {
        TensorFactValue {
            datum_type: GenericFact::Any,
            shape: ShapeFactValue { open: true, dims: Seq::empty() },
            value: GenericFact::Any,
        }
    }

    /// The meet of two tensor facts, taken part by part, or the error of the
    /// first part that contradicts: the element type, then the shape, then
    /// the value.
    pub open spec fn unify_spec(self, other: TensorFactValue) -> Result<TensorFactValue, TractError> {
        match self.datum_type.unify_spec(other.datum_type) {
            None => Err(TractError::TypeMismatch),
            Some(datum_type) => match self.shape.unify_spec(other.shape) {
                None => Err(TractError::ShapeMismatch),
                Some(shape) => match self.value.unify_spec(other.value) {
                    None => Err(TractError::ContradictoryFact),
                    Some(value) => Ok(TensorFactValue { datum_type, shape, value }),
                },
            },
        }
    }

    /// What a tensor says of its own dimension of extent `extent`: the
    /// extent, or nothing when the extent does not fit in a dimension.
    pub open spec fn dim_of(extent: usize) -> DimFact {
        if extent <= i64::MAX {
            GenericFact::Only(TDim { slope: 0, constant: extent as i64 })
        } else {
            GenericFact::Any
        }
    }

    /// The fact that holds of the tensor `t`: its element type, its shape
    /// and its value.
    pub open spec fn of_tensor(t: TensorValue) -> TensorFactValue {
        TensorFactValue {
            datum_type: GenericFact::Only(t.datum_type),
            shape: ShapeFactValue {
                open: false,
                dims: Seq::new(t.shape.len(), |i: int| Self::dim_of(t.shape[i])),
            },
            value: GenericFact::Only(t),
        }
    }
}

/// What is known about a tensor: its element type, its shape and its value.
#[derive(Debug, PartialEq, Eq)]
pub struct TensorFact {
    pub datum_type: TypeFact,
    pub shape: ShapeFact,
    pub value: ValueFact,
}

impl View for TensorFact {
    type V = TensorFactValue;

    open spec fn view(&self) -> TensorFactValue {
        TensorFactValue { datum_type: self.datum_type, shape: self.shape@, value: self.value@ }
    }
}

impl DeepView for TensorFact {
    type V = TensorFactValue;

    open spec fn deep_view(&self) -> TensorFactValue {
        self@
    }
}

impl Clone for TensorFact {
    fn clone(&self) -> (r: TensorFact)
        ensures
            r@ == self@,
    {
        TensorFact {
            datum_type: self.datum_type,
            shape: self.shape.clone(),
            value: self.value.duplicate(),
        }
    }
}

impl Default for TensorFact {
    fn default() -> (r: TensorFact)
        ensures
            r@ == TensorFactValue::any(),
    {
        TensorFact {
            datum_type: GenericFact::Any,
            shape: ShapeFact::open(Vec::new()),
            value: GenericFact::Any,
        }
    }
}

impl TensorFact {
    /// The fact that knows only the element type.
    pub fn dt(datum_type: DatumType) -> (r: TensorFact)
        ensures
            r@ == (TensorFactValue { datum_type: GenericFact::Only(datum_type), ..TensorFactValue::any() }),
    {
        TensorFact {
            datum_type: GenericFact::Only(datum_type),
            shape: ShapeFact::open(Vec::new()),
            value: GenericFact::Any,
        }
    }

    /// The same fact with another shape fact.
    pub fn with_shape(self, shape: ShapeFact) -> (r: TensorFact)
        ensures
            r@ == (TensorFactValue { shape: shape@, ..self@ }),
    {
        TensorFact { datum_type: self.datum_type, shape, value: self.value }
    }

    /// The fact that holds of the tensor `t`: its element type, its shape
    /// and its value.
    pub fn from_tensor(t: Tensor) -> (r: TensorFact)
        ensures
            r@ == TensorFactValue::of_tensor(t@),
    {
        let mut dims: Vec<DimFact> = Vec::new();
        let mut i: usize = 0;
        let shape = t.shape();
        while i < shape.len()
            invariant
                i <= shape.len(),
                shape@ == t@.shape,
                dims@.len() == i,
                forall|j: int| 0 <= j < i ==> dims@[j] == TensorFactValue::dim_of(shape@[j]),
            decreases shape.len() - i,
        {
            match usize_to_i64(shape[i]) {
                Some(extent) => {
                    dims.push(GenericFact::Only(TDim::from_int(extent)));
                },
                None => {
                    dims.push(GenericFact::Any);
                },
            }
            i += 1;
        }
        let datum_type = GenericFact::Only(t.datum_type());
        let f = TensorFact { datum_type, shape: ShapeFact::closed(dims), value: GenericFact::Only(t) };
        assert(f@.shape.dims =~= TensorFactValue::of_tensor(t@).shape.dims);
        f
    }

    /// Whether two tensor facts say the same.
    pub fn same_as(&self, other: &TensorFact) -> (r: bool)
        ensures
            r == (self@ == other@),
    {
        if !same_type_fact(&self.datum_type, &other.datum_type) {
            return false;
        }
        if !self.shape.same_as(&other.shape) {
            return false;
        }
        match (&self.value, &other.value) {
            (GenericFact::Any, GenericFact::Any) => true,
            (GenericFact::Only(a), GenericFact::Only(b)) => a.same_as(b),
            _ => false,
        }
    }

    /// Combines two tensor facts part by part; fails with the error of the
    /// first part that contradicts.
    pub fn unify(&self, other: &TensorFact) -> (r: TractResult<TensorFact>)
        ensures
            match self@.unify_spec(other@) {
                Ok(m) => r matches Ok(f) && f@ == m,
                Err(kind) => r matches Err(e) && e == kind,
            },
    {
        let datum_type = self.datum_type.unify(&other.datum_type)?;
        let shape = self.shape.unify(&other.shape)?;
        let value = self.value.unify(&other.value)?;
        Ok(TensorFact { datum_type, shape, value })
    }

    /// Whether the fact fixes the tensor, which it does when its value is
    /// exact.
    pub fn is_concrete(&self) -> (r: bool)
        ensures
            r == (self@.value is Only),
    {
        self.value.is_concrete()
    }

    /// The tensor that the fact fixes: a value exactly when the value fact
    /// is exact.
    pub fn concretize(&self) -> (r: Option<Tensor>)
        ensures
            match r {
                Some(t) => self@.value == GenericFact::Only(t@) && t@.wf(),
                None => self@.value is Any,
            },
    {
        self.value.concretize()
    }
}

} // verus!
