use vstd::prelude::*;
use crate::tensor::{ElementType, TensorBuffer};
use crate::text::same_text;

verus! {

/// One tensor of an archive: its name, element type, rows, columns and bytes.
pub type EntryModel = (Seq<char>, ElementType, usize, usize, Seq<u8>);

/// The tensors of an archive, name by name.
pub open spec fn archive_entries(names: Seq<String>, tensors: Seq<TensorBuffer>) -> Seq<EntryModel> {
    Seq::new(
        names.len(),
        |i: int| (names[i]@, tensors[i].element, tensors[i].rows, tensors[i].cols, tensors[i].data@),
    )
}

/// The bytes that `safetensors::serialize` writes for these tensors.
pub uninterp spec fn safetensors_bytes(entries: Seq<EntryModel>) -> Seq<u8>;

/// The number that little-endian bytes spell.
pub open spec fn le_value(b: Seq<u8>) -> nat
    decreases b.len(),
{
    if b.len() == 0 {
        0
    } else {
        b[0] as nat + 256 * le_value(b.drop_first())
    }
}

/// The total byte count of the tensors.
pub open spec fn data_total(tensors: Seq<TensorBuffer>) -> nat
    decreases tensors.len(),
{
    if tensors.len() == 0 {
        0
    } else {
        data_total(tensors.drop_last()) + tensors.last().data@.len()
    }
}

/// No two names are equal.
pub open spec fn names_distinct(names: Seq<String>) -> bool {
    forall|i: int, j: int| 0 <= i < j < names.len() ==> #[trigger] names[i]@ != #[trigger] names[j]@
}

/// Relies on `safetensors::tensor::TensorView::new`, which refuses only bytes
/// that do not fill the shape (rows times columns cannot overflow when they
/// do), and `safetensors::serialize`. That one sorts the tensors by element
/// type, widest first, then by name, builds the header table (with distinct
/// names, one entry per tensor; its JSON writing cannot fail), and writes the
/// header length as eight little-endian bytes, then the header padded with
/// spaces to a multiple of eight bytes, then the bytes of every tensor.
#[verifier::external_body]
fn serialize_tensors(names: &Vec<String>, tensors: &Vec<TensorBuffer>) -> (b: Vec<u8>)
    requires
        names@.len() == tensors@.len(),
        names_distinct(names@),
        forall|j: int| 0 <= j < tensors@.len() ==> (#[trigger] tensors@[j]).consistent(),
    ensures
        b@ == safetensors_bytes(archive_entries(names@, tensors@)),
        b@.len() == 8 + le_value(b@.take(8)) + data_total(tensors@),
        le_value(b@.take(8)) % 8 == 0,
{
    let mut views = Vec::with_capacity(names.len());
    for (name, t) in names.iter().zip(tensors.iter()) {
        let dtype = match t.element {
            ElementType::U16 => safetensors::Dtype::U16,
            ElementType::I16 => safetensors::Dtype::I16,
            ElementType::F32 => safetensors::Dtype::F32,
        };
        let view = safetensors::tensor::TensorView::new(dtype, vec![t.rows, t.cols], &t.data);
        views.push((name.as_str(), view.expect("bytes fill the shape")));
    }
    safetensors::serialize(views, &None).expect("distinct names serialize")
}

/// Why the archive of a sample could not be written.
#[derive(Clone, Copy, Debug, PartialEq, Eq, Structural)]
pub enum EncodeError {
    /// There are not as many tensors as names.
    CountMismatch,
    /// The tensor at this position has a byte count that its shape and
    /// element type do not call for.
    ByteLengthMismatch(usize),
    /// The tensors at these two positions have the same name.
    DuplicateName(usize, usize),
}

/// Encodes the tensors of one sample, each under its name, into one archive:
/// an eight-byte little-endian header length, the header, then the tensors'
/// bytes. The serializer lays the tensors out in its own order, widest
/// element type first and then by name, whatever the order of `names`; a
/// reader finds each tensor by name through the header. The checks run in
/// this order: as many tensors as names, every
/// tensor's byte count against its shape, distinct names. When all pass the
/// archive is written.
pub fn encode_sample(names: &Vec<String>, tensors: &Vec<TensorBuffer>) -> (r: Result<Vec<u8>, EncodeError>)
    ensures
        (r == Err::<Vec<u8>, EncodeError>(EncodeError::CountMismatch)) <==> names@.len() != tensors@.len(),
        r matches Err(EncodeError::ByteLengthMismatch(i)) ==> names@.len() == tensors@.len() && i
            < tensors@.len() && !tensors@[i as int].consistent() && forall|j: int|
            0 <= j < i ==> (#[trigger] tensors@[j]).consistent(),
        names@.len() == tensors@.len() && (exists|j: int| 0 <= j < tensors@.len() && !(#[trigger] tensors@[j]).consistent())
            ==> r matches Err(EncodeError::ByteLengthMismatch(_)),
        r matches Err(EncodeError::DuplicateName(i, j)) ==> names@.len() == tensors@.len() && (forall|q: int|
            0 <= q < tensors@.len() ==> (#[trigger] tensors@[q]).consistent()) && i < j < names@.len()
            && names@[i as int]@ == names@[j as int]@,
        (r is Ok) <==> (names@.len() == tensors@.len() && names_distinct(names@) && forall|q: int|
            0 <= q < tensors@.len() ==> (#[trigger] tensors@[q]).consistent()),
        r matches Ok(b) ==> b@ == safetensors_bytes(archive_entries(names@, tensors@)),
        r matches Ok(b) ==> b@.len() == 8 + le_value(b@.take(8)) + data_total(tensors@),
{
    if names.len() != tensors.len() {
        return Err(EncodeError::CountMismatch);
    }
    let mut i: usize = 0;
    while i < tensors.len()
        invariant
            i <= tensors@.len(),
            names@.len() == tensors@.len(),
            forall|j: int| 0 <= j < i ==> (#[trigger] tensors@[j]).consistent(),
        decreases tensors.len() - i,
    {
        if !tensors[i].is_consistent() {
            return Err(EncodeError::ByteLengthMismatch(i));
        }
        i = i + 1;
    }
    let mut b: usize = 0;
    while b < names.len()
        invariant
            b <= names@.len(),
            names@.len() == tensors@.len(),
            forall|q: int| 0 <= q < tensors@.len() ==> (#[trigger] tensors@[q]).consistent(),
            forall|x: int, y: int| 0 <= x < y < b ==> #[trigger] names@[x]@ != #[trigger] names@[y]@,
        decreases names.len() - b,
    {
        let mut a: usize = 0;
        while a < b
            invariant
                a <= b < names@.len(),
                names@.len() == tensors@.len(),
                forall|q: int| 0 <= q < tensors@.len() ==> (#[trigger] tensors@[q]).consistent(),
                forall|x: int| 0 <= x < a ==> #[trigger] names@[x]@ != names@[b as int]@,
            decreases b - a,
        {
            if same_text(names[a].as_str(), names[b].as_str()) {
                return Err(EncodeError::DuplicateName(a, b));
            }
            a = a + 1;
        }
        b = b + 1;
    }
    Ok(serialize_tensors(names, tensors))
}

/// The header length that an archive's first eight bytes give, if it has
/// eight bytes.
pub fn header_length(blob: &Vec<u8>) -> (r: Option<u64>)
    ensures
        match r {
            Some(n) => blob@.len() >= 8 && n == le_value(blob@.take(8)),
            None => blob@.len() < 8,
        },
{
    if blob.len() < 8 {
        return None;
    }
    let mut n: u64 = 0;
    let mut i: usize = 8;
    while i > 0
        invariant
            i <= 8,
            blob@.len() >= 8,
            n == le_value(blob@.subrange(i as int, 8)),
            n < pow256((8 - i) as nat),
        decreases i,
    {
        i = i - 1;
        proof {
            assert(blob@.subrange(i as int, 8).drop_first() =~= blob@.subrange(i + 1, 8));
            assert(pow256((8 - i) as nat) == 256 * pow256((8 - i - 1) as nat));
            assert(n * 256 + 255 < pow256((8 - i) as nat)) by (nonlinear_arith)
                requires n < pow256((8 - i - 1) as nat), pow256((8 - i) as nat) == 256 * pow256((8 - i - 1) as nat);
            lemma_pow256_bound((8 - i) as nat);
        }
        n = blob[i] as u64 + 256 * n;
    }
    assert(blob@.subrange(0, 8) =~= blob@.take(8));
    Some(n)
}

/// 256 to the power `k`.
pub open spec fn pow256(k: nat) -> nat
    decreases k,
{
    if k == 0 {
        1
    } else {
        256 * pow256((k - 1) as nat)
    }
}

proof fn lemma_pow256_bound(k: nat)
    requires
        k <= 8,
    ensures
        pow256(k) <= 0x1_0000_0000_0000_0000,
{
    assert(pow256(0) == 1);
    assert(pow256(1) == 0x100);
    assert(pow256(2) == 0x1_0000);
    assert(pow256(3) == 0x100_0000);
    assert(pow256(4) == 0x1_0000_0000);
    assert(pow256(5) == 0x100_0000_0000);
    assert(pow256(6) == 0x1_0000_0000_0000);
    assert(pow256(7) == 0x100_0000_0000_0000);
    assert(pow256(8) == 0x1_0000_0000_0000_0000);
}

/// Of an archive that `encode_sample` wrote, the header length read back by
/// `header_length` leaves exactly the tensors' bytes after the header.
pub proof fn lemma_data_section_len(names: Seq<String>, tensors: Seq<TensorBuffer>, blob: Seq<u8>)
    requires
        blob == safetensors_bytes(archive_entries(names, tensors)),
        blob.len() == 8 + le_value(blob.take(8)) + data_total(tensors),
    ensures
        blob.len() >= 8,
        blob.len() - 8 - le_value(blob.take(8)) == data_total(tensors),
{
}

} // verus!
