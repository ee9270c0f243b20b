//! Columns of truth values.

use vstd::prelude::*;

use crate::common::error::ErrorCode;

verus! {

/// What stands for null where values are hashed.
pub const NULL_VAL_FOR_HASH: u32 = 0xfffffff0;

/// A column of truth values, some of which may be null.
#[derive(Debug)]
pub struct BoolArray {
    bitmap: Vec<bool>,
    data: Vec<bool>,
}

/// What is handed to a hasher for a value.
#[derive(Clone, Copy, Debug, PartialEq, Eq, Hash, Structural)]
pub enum HashInput {
    Bool(bool),
    Null(u32),
}

/// What the values of a sent column are.
#[derive(Clone, Copy, Debug, PartialEq, Eq, Structural)]
pub enum ArrayType {
    Bool,
    Other,
}

/// How a buffer is compressed.
#[derive(Clone, Copy, Debug, PartialEq, Eq, Structural)]
pub enum CompressionType {
    Uncompressed,
    Other,
}

/// Bytes as they are sent.
#[derive(Debug)]
pub struct Buffer {
    pub compression: CompressionType,
    pub body: Vec<u8>,
}

/// A column as it is sent: which values are not null, and the buffers with the values.
#[derive(Debug)]
pub struct ProstArray {
    pub array_type: ArrayType,
    pub null_bitmap: Option<Vec<bool>>,
    pub values: Vec<Buffer>,
}

/// Values from two lists: whether each is there, and what it is.
pub open spec fn joined(bitmap: Seq<bool>, data: Seq<bool>) -> Seq<Option<bool>> {
    Seq::new(
        bitmap.len(),
        |i: int|
            if bitmap[i] {
                Some(data[i])
            } else {
                None
            },
    )
}

/// The truth values of values; false stands where a value is null.
pub open spec fn bits_of(values: Seq<Option<bool>>) -> Seq<bool> {
    Seq::new(values.len(), |i: int| values[i] == Some(true))
}

/// The values that are not null, as bytes.
pub open spec fn value_bytes(values: Seq<Option<bool>>, n: int) -> Seq<u8>
    decreases n,
{
    if n <= 0 {
        Seq::empty()
    } else {
        match values[n - 1] {
            Some(b) => value_bytes(values, n - 1).push(
                if b {
                    1u8
                } else {
                    0u8
                },
            ),
            None => value_bytes(values, n - 1),
        }
    }
}

impl View for BoolArray {
    type V = Seq<Option<bool>>;

    open spec fn view(&self) -> Seq<Option<bool>> {
        joined(self.marks(), self.bits())
    }
}

impl BoolArray {
    /// Which values are not null.
    pub closed spec fn marks(&self) -> Seq<bool> {
        self.bitmap@
    }

    /// One truth value for each value; where the value is null it is hidden.
    pub closed spec fn bits(&self) -> Seq<bool> {
        self.data@
    }

    /// Both lists have one item per value.
    pub open spec fn wf(&self) -> bool {
        self.marks().len() == self.bits().len()
    }

    /// The column of the given values.
    pub fn from_slice(data: &[Option<bool>]) -> (r: Result<BoolArray, ErrorCode>)
        ensures
            r matches Ok(array) && array.wf() && array@ == data@ && array.bits() == bits_of(data@),
    {
        let mut builder = match BoolArrayBuilder::new(data.len()) {
            Ok(builder) => builder,
            Err(e) => {
                return Err(e);
            },
        };
        let mut i: usize = 0;
        proof {
            assert(builder@ =~= data@.subrange(0, 0));
            assert(builder.bits() =~= bits_of(data@.subrange(0, 0)));
        }
        while i < data.len()
            invariant
                i <= data@.len(),
                builder.wf(),
                builder@ == data@.subrange(0, i as int),
                builder.bits() == bits_of(data@.subrange(0, i as int)),
            decreases data@.len() - i,
        {
            let appended = builder.append(data[i]);
            i = i + 1;
            proof {
                assert(builder.bits() =~= bits_of(data@.subrange(0, i as int)));
                assert(data@.subrange(0, i - 1).push(data@[i - 1]) =~= data@.subrange(0, i as int));
                assert(appended is Ok);
            }
        }
        proof {
            assert(data@.subrange(0, data@.len() as int) =~= data@);
        }
        builder.finish()
    }

    /// Whether the value is null.
    pub fn is_null(&self, idx: usize) -> (r: bool)
        requires
            self.wf(),
            idx < self@.len(),
        ensures
            r == (self@[idx as int] is None),
    {
        !self.bitmap[idx]
    }

    /// The value at a position.
    pub fn value_at(&self, idx: usize) -> (r: Option<bool>)
        requires
            self.wf(),
            idx < self@.len(),
        ensures
            r == self@[idx as int],
    {
        if !self.is_null(idx) {
            Some(self.data[idx])
        } else {
            None
        }
    }

    /// How many values there are.
    pub fn len(&self) -> (r: usize)
        requires
            self.wf(),
        ensures
            r == self@.len(),
    {
        self.data.len()
    }

    /// All values in order.
    pub fn iter(&self) -> (r: Vec<Option<bool>>)
        requires
            self.wf(),
        ensures
            r@ == self@,
    {
        let mut r: Vec<Option<bool>> = Vec::new();
        let mut i: usize = 0;
        while i < self.data.len()
            invariant
                i <= self.data@.len(),
                self.wf(),
                r@ == self@.subrange(0, i as int),
            decreases self.data@.len() - i,
        {
            r.push(self.value_at(i));
            i = i + 1;
            proof {
                assert(r@ =~= self@.subrange(0, i as int));
            }
        }
        proof {
            assert(r@ =~= self@);
        }
        r
    }

    /// The column as it is sent.
    pub fn to_protobuf(&self) -> (r: ProstArray)
        requires
            self.wf(),
        ensures
            r.array_type == ArrayType::Bool,
            r.null_bitmap matches Some(marks) && marks@ == self.marks(),
            r.values@.len() == 1,
            r.values@[0].compression == CompressionType::Uncompressed,
            r.values@[0].body@ == value_bytes(self@, self@.len() as int),
    {
        let mut body: Vec<u8> = Vec::new();
        let mut null_bitmap: Vec<bool> = Vec::new();
        let ghost marks = self.marks();
        let mut i: usize = 0;
        while i < self.data.len()
            invariant
                i <= self.data@.len(),
                self.wf(),
                marks == self.marks(),
                body@ == value_bytes(self@, i as int),
                null_bitmap@ == marks.subrange(0, i as int),
            decreases self.data@.len() - i,
        {
            let value = self.value_at(i);
            null_bitmap.push(value.is_some());
            if let Some(v) = value {
                body.push(
                    if v {
                        1
                    } else {
                        0
                    },
                );
            }
            i = i + 1;
            proof {
                assert(null_bitmap@ =~= marks.subrange(0, i as int));
            }
        }
        proof {
            assert(null_bitmap@ =~= marks);
        }
        let mut values: Vec<Buffer> = Vec::new();
        values.push(Buffer { compression: CompressionType::Uncompressed, body });
        ProstArray { array_type: ArrayType::Bool, null_bitmap: Some(null_bitmap), values }
    }

    /// Which values are not null.
    pub fn null_bitmap(&self) -> (r: &Vec<bool>)
        ensures
            r@ == self.marks(),
    {
        &self.bitmap
    }

    /// Replaces the marks of which values are not null. A value that was null and is not
    /// any more is the one that was hidden.
    pub fn set_bitmap(&mut self, bitmap: Vec<bool>)
        requires
            old(self).wf(),
            bitmap@.len() == old(self)@.len(),
        ensures
            final(self).wf(),
            final(self).marks() == bitmap@,
            final(self).bits() == old(self).bits(),
            final(self)@ == joined(bitmap@, old(self).bits()),
    {
        self.bitmap = bitmap;
    }

    /// What is handed to a hasher for the value at a position.
    pub fn hash_at(&self, idx: usize) -> (r: HashInput)
        requires
            self.wf(),
            idx < self@.len(),
        ensures
            r == hash_input(self@[idx as int]),
    {
        if !self.is_null(idx) {
            HashInput::Bool(self.data[idx])
        } else {
            HashInput::Null(NULL_VAL_FOR_HASH)
        }
    }

    /// A builder for a column of the same kind.
    pub fn create_builder(&self, capacity: usize) -> (r: Result<BoolArrayBuilder, ErrorCode>)
        ensures
            r matches Ok(builder) && builder.wf() && builder@ == Seq::<Option<bool>>::empty()
                && builder.bits() == Seq::<bool>::empty() && builder.spec_capacity() == capacity,
    {
        BoolArrayBuilder::new(capacity)
    }
}

/// `BoolArrayBuilder` constructs a `BoolArray` from `Option<Bool>`.
#[derive(Debug)]
pub struct BoolArrayBuilder {
    bitmap: Vec<bool>,
    data: Vec<bool>,
    capacity: usize,
}

impl View for BoolArrayBuilder {
    type V = Seq<Option<bool>>;

    closed spec fn view(&self) -> Seq<Option<bool>> {
        joined(self.bitmap@, self.data@)
    }
}

impl BoolArrayBuilder {
    /// Both lists have one item per value.
    pub closed spec fn wf(&self) -> bool {
        self.bitmap@.len() == self.data@.len()
    }

    /// One truth value for each value.
    pub closed spec fn bits(&self) -> Seq<bool> {
        self.data@
    }

    /// For how many values the builder was made. It takes more of them, too.
    pub closed spec fn spec_capacity(&self) -> usize {
        self.capacity
    }

    /// A builder without values, made for `capacity` of them.
    pub fn new(capacity: usize) -> (r: Result<BoolArrayBuilder, ErrorCode>)
        ensures
            r matches Ok(builder) && builder.wf() && builder@ == Seq::<Option<bool>>::empty()
                && builder.bits() == Seq::<bool>::empty() && builder.spec_capacity() == capacity,
    {
        let builder = BoolArrayBuilder {
            bitmap: Vec::with_capacity(capacity),
            data: Vec::with_capacity(capacity),
            capacity,
        };
        proof {
            assert(builder@ =~= Seq::<Option<bool>>::empty());
            assert(builder.bits() =~= Seq::<bool>::empty());
        }
        Ok(builder)
    }

    /// Adds a value.
    pub fn append(&mut self, value: Option<bool>) -> (r: Result<(), ErrorCode>)
        requires
            old(self).wf(),
        ensures
            final(self).wf(),
            r is Ok,
            final(self)@ == old(self)@.push(value),
            final(self).bits() == old(self).bits().push(value == Some(true)),
            final(self).spec_capacity() == old(self).spec_capacity(),
    {
        let ghost before = self@;
        match value {
            Some(x) => {
                self.bitmap.push(true);
                self.data.push(x);
            },
            None => {
                self.bitmap.push(false);
                self.data.push(false);
            },
        }
        proof {
            assert(self@ =~= before.push(value));
        }
        Ok(())
    }

    /// Adds the values of a column.
    pub fn append_array(&mut self, other: &BoolArray) -> (r: Result<(), ErrorCode>)
        requires
            old(self).wf(),
            other.wf(),
        ensures
            final(self).wf(),
            r is Ok,
            final(self)@ == old(self)@ + other@,
            final(self).bits() == old(self).bits() + other.bits(),
            final(self).spec_capacity() == old(self).spec_capacity(),
    {
        let ghost before = self@;
        let ghost (marks, bits) = (self.bitmap@, self.data@);
        let mut i: usize = 0;
        while i < other.data.len()
            invariant
                i <= other.data@.len(),
                other.wf(),
                marks.len() == bits.len(),
                self.bitmap@ == marks + other.marks().subrange(0, i as int),
                self.data@ == bits + other.bits().subrange(0, i as int),
                self.spec_capacity() == old(self).spec_capacity(),
            decreases other.data@.len() - i,
        {
            self.bitmap.push(other.bitmap[i]);
            self.data.push(other.data[i]);
            i = i + 1;
            proof {
                assert(self.bitmap@ =~= marks + other.marks().subrange(0, i as int));
                assert(self.data@ =~= bits + other.bits().subrange(0, i as int));
            }
        }
        proof {
            assert(other.marks().subrange(0, i as int) =~= other.marks());
            assert(other.bits().subrange(0, i as int) =~= other.bits());
            assert(self@ =~= before + other@);
        }
        Ok(())
    }

    /// The column of the values.
    pub fn finish(self) -> (r: Result<BoolArray, ErrorCode>)
        requires
            self.wf(),
        ensures
            r matches Ok(array) && array.wf() && array@ == self@ && array.bits() == self.bits(),
    {
        Ok(BoolArray { bitmap: self.bitmap, data: self.data })
    }
}

/// A column that is sent can be told from every other one: which values are null, and
/// the bytes of the others, give the values.
pub proof fn law_sent_column_is_exact(a: Seq<Option<bool>>, b: Seq<Option<bool>>, n: int)
    requires
        0 <= n <= a.len(),
        n <= b.len(),
        forall|i: int| 0 <= i < n ==> (#[trigger] a[i] is Some) == (b[i] is Some),
        value_bytes(a, n) == value_bytes(b, n),
    ensures
        forall|i: int| 0 <= i < n ==> #[trigger] a[i] == b[i],
    decreases n,
{
    if n > 0 {
        let (x, y) = (value_bytes(a, n), value_bytes(b, n));
        let (p, q) = (value_bytes(a, n - 1), value_bytes(b, n - 1));
        assert(a[n - 1] is Some == b[n - 1] is Some);
        if a[n - 1] is Some {
            assert(x.drop_last() =~= p);
            assert(y.drop_last() =~= q);
            assert(x.last() == y.last());
        }
        law_sent_column_is_exact(a, b, n - 1);
    }
}

/// Null and the truth values are told apart where values are hashed.
pub proof fn law_hash_inputs_differ(a: Option<bool>, b: Option<bool>)
    requires
        hash_input(a) == hash_input(b),
    ensures
        a == b,
{
}

/// What is handed to a hasher for a value.
pub open spec fn hash_input(v: Option<bool>) -> HashInput {
    match v {
        Some(b) => HashInput::Bool(b),
        None => HashInput::Null(NULL_VAL_FOR_HASH),
    }
}

/// The bytes of a sent column hold one byte for each value that is not null, in their order: 1 for
/// true and 0 for false.
pub proof fn law_sent_bytes_are_the_values(values: Seq<Option<bool>>, more: Option<bool>)
    ensures
        value_bytes(values.push(more), (values.len() + 1) as int) == match more {
            Some(true) => value_bytes(values, values.len() as int) + seq![1u8],
            Some(false) => value_bytes(values, values.len() as int) + seq![0u8],
            None => value_bytes(values, values.len() as int),
        },
        value_bytes(values, 0) == Seq::<u8>::empty(),
{
    let n = values.len() as int;
    lemma_value_bytes_prefix(values, more, n);
    let all = value_bytes(values.push(more), n + 1);
    match more {
        Some(b) => {
            assert(all =~= value_bytes(values, n) + seq![if b { 1u8 } else { 0u8 }]);
        },
        None => {},
    }
}

proof fn lemma_value_bytes_prefix(values: Seq<Option<bool>>, more: Option<bool>, n: int)
    requires
        0 <= n <= values.len(),
    ensures
        value_bytes(values.push(more), n) == value_bytes(values, n),
    decreases n,
{
    if n > 0 {
        lemma_value_bytes_prefix(values, more, n - 1);
    }
}

/// A value that is there is the one of the data, and a value that is not is null; the data of a null value does not
/// count.
pub proof fn law_bitmap_tells_nulls(bitmap: Seq<bool>, data: Seq<bool>, other: Seq<bool>, i: int)
    requires
        bitmap.len() == data.len(),
        bitmap.len() == other.len(),
        0 <= i < bitmap.len(),
    ensures
        joined(bitmap, data).len() == bitmap.len(),
        bitmap[i] ==> joined(bitmap, data)[i] == Some(data[i]),
        !bitmap[i] ==> joined(bitmap, data)[i] is None,
        !bitmap[i] ==> joined(bitmap, data)[i] == joined(bitmap, other)[i],
        bits_of(joined(bitmap, data))[i] <==> bitmap[i] && data[i],
{
}

} // verus!
