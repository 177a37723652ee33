use vstd::prelude::*;
use vstd::string::StringExecFns;
use crate::profile::DatasetProfile;
use crate::grouping::SampleGroup;

verus! {

/// The element types that an archive holds.
#[derive(Clone, Copy, Debug, PartialEq, Eq, Structural)]
pub enum ElementType {
    U16,
    I16,
    F32,
}

/// The pixel type that the raster reader reports for a band.
#[derive(Clone, Copy, Debug, PartialEq, Eq, Structural)]
pub enum PixelType {
    UInt16,
    Int16,
    Float32,
    /// Any other pixel type, which no archive can hold.
    Other,
}

/// Why a band's values could not become a tensor.
#[derive(Clone, Copy, Debug, PartialEq, Eq, Structural)]
pub enum TensorError {
    /// The band's pixel type is not one of the supported element types.
    UnsupportedPixelType,
    /// The number of values is not rows times columns.
    ShapeMismatch,
}

impl ElementType {
    /// Bytes per element.
    pub open spec fn width_spec(self) -> nat {
        match self {
            ElementType::U16 => 2,
            ElementType::I16 => 2,
            ElementType::F32 => 4,
        }
    }

    /// Bytes per element.
    pub fn width(&self) -> (r: usize)
        ensures
            r == self.width_spec(),
    {
        match self {
            ElementType::U16 => 2,
            ElementType::I16 => 2,
            ElementType::F32 => 4,
        }
    }

    /// The element type that stores a band of the given pixel type.
    pub open spec fn of_pixel_spec(p: PixelType) -> Option<ElementType> {
        match p {
            PixelType::UInt16 => Some(ElementType::U16),
            PixelType::Int16 => Some(ElementType::I16),
            PixelType::Float32 => Some(ElementType::F32),
            PixelType::Other => None,
        }
    }

    /// The element type that stores a band of the given pixel type; any
    /// pixel type but these three is unsupported.
    pub fn of_pixel(p: PixelType) -> (r: Result<ElementType, TensorError>)
        ensures
            match Self::of_pixel_spec(p) {
                Some(e) => r == Ok::<ElementType, TensorError>(e),
                None => r == Err::<ElementType, TensorError>(TensorError::UnsupportedPixelType),
            },
    {
        match p {
            PixelType::UInt16 => Ok(ElementType::U16),
            PixelType::Int16 => Ok(ElementType::I16),
            PixelType::Float32 => Ok(ElementType::F32),
            PixelType::Other => Err(TensorError::UnsupportedPixelType),
        }
    }
}

/// The little-endian bytes of 16-bit values, two per value.
pub open spec fn le_bytes_16(v: Seq<u16>) -> Seq<u8> {
    Seq::new(
        2 * v.len(),
        |i: int|
            if i % 2 == 0 {
                (v[i / 2] % 256) as u8
            } else {
                (v[i / 2] / 256) as u8
            },
    )
}

/// The little-endian bytes of 32-bit values, four per value.
pub open spec fn le_bytes_32(v: Seq<u32>) -> Seq<u8> {
    Seq::new(
        4 * v.len(),
        |i: int|
            if i % 4 == 0 {
                (v[i / 4] % 256) as u8
            } else if i % 4 == 1 {
                ((v[i / 4] / 256) % 256) as u8
            } else if i % 4 == 2 {
                ((v[i / 4] / 65536) % 256) as u8
            } else {
                (v[i / 4] / 16777216) as u8
            },
    )
}

/// The two's complement bit pattern of a signed 16-bit value.
pub open spec fn bits_16(x: i16) -> u16 {
    if x < 0 {
        (x + 65536) as u16
    } else {
        x as u16
    }
}

/// A decoded band: a grid of `rows` by `cols` elements, its bytes in row-major
/// order and little-endian.
#[derive(Clone, Debug)]
pub struct TensorBuffer {
    pub element: ElementType,
    pub rows: usize,
    pub cols: usize,
    pub data: Vec<u8>,
}

impl TensorBuffer {
    /// The byte count that the shape and element type call for.
    pub open spec fn expected_len(self) -> int {
        self.rows * self.cols * self.element.width_spec()
    }

    /// The bytes match the shape and element type.
    pub open spec fn consistent(self) -> bool {
        self.data@.len() == self.expected_len()
    }

    fn from_words_16(element: ElementType, rows: usize, cols: usize, words: &Vec<u16>) -> (r: Result<TensorBuffer, TensorError>)
        requires
            element.width_spec() == 2,
        ensures
            match r {
                Ok(t) => words@.len() == rows * cols && t.element == element && t.rows == rows && t.cols
                    == cols && t.data@ == le_bytes_16(words@),
                Err(e) => words@.len() != rows * cols && e == TensorError::ShapeMismatch,
            },
    {
        let len = words.len();
        match rows.checked_mul(cols) {
            Some(n) => {
                if n != len {
                    return Err(TensorError::ShapeMismatch);
                }
            },
            None => {
                return Err(TensorError::ShapeMismatch);
            },
        }
        let mut data: Vec<u8> = Vec::new();
        let mut i: usize = 0;
        while i < words.len()
            invariant
                i <= words@.len(),
                data@ =~= le_bytes_16(words@.take(i as int)),
            decreases words.len() - i,
        {
            let w = words[i];
            data.push((w % 256) as u8);
            data.push((w / 256) as u8);
            assert(data@ =~= le_bytes_16(words@.take(i + 1)));
            i = i + 1;
        }
        assert(words@.take(i as int) =~= words@);
        Ok(TensorBuffer { element, rows, cols, data })
    }

    /// An unsigned 16-bit band; fails unless `values` has `rows * cols`
    /// elements.
    pub fn from_u16(rows: usize, cols: usize, values: &Vec<u16>) -> (r: Result<TensorBuffer, TensorError>)
        ensures
            match r {
                Ok(t) => values@.len() == rows * cols && t.element == ElementType::U16 && t.rows == rows
                    && t.cols == cols && t.data@ == le_bytes_16(values@),
                Err(e) => values@.len() != rows * cols && e == TensorError::ShapeMismatch,
            },
    {
        Self::from_words_16(ElementType::U16, rows, cols, values)
    }

    /// A signed 16-bit band, stored as two's complement; fails unless
    /// `values` has `rows * cols` elements.
    pub fn from_i16(rows: usize, cols: usize, values: &Vec<i16>) -> (r: Result<TensorBuffer, TensorError>)
        ensures
            match r {
                Ok(t) => values@.len() == rows * cols && t.element == ElementType::I16 && t.rows == rows
                    && t.cols == cols && t.data@ == le_bytes_16(values@.map_values(|x: i16| bits_16(x))),
                Err(e) => values@.len() != rows * cols && e == TensorError::ShapeMismatch,
            },
    {
        let mut words: Vec<u16> = Vec::new();
        let mut i: usize = 0;
        while i < values.len()
            invariant
                i <= values@.len(),
                words@ =~= values@.take(i as int).map_values(|x: i16| bits_16(x)),
            decreases values.len() - i,
        {
            let x = values[i];
            let w: u16 = if x < 0 {
                (x as i32 + 65536) as u16
            } else {
                x as u16
            };
            words.push(w);
            assert(words@ =~= values@.take(i + 1).map_values(|x: i16| bits_16(x)));
            i = i + 1;
        }
        assert(values@.take(i as int) =~= values@);
        Self::from_words_16(ElementType::I16, rows, cols, &words)
    }

    /// A 32-bit float band, given as the bit pattern of each value; fails
    /// unless `bits` has `rows * cols` elements.
    pub fn from_f32_bits(rows: usize, cols: usize, bits: &Vec<u32>) -> (r: Result<TensorBuffer, TensorError>)
        ensures
            match r {
                Ok(t) => bits@.len() == rows * cols && t.element == ElementType::F32 && t.rows == rows
                    && t.cols == cols && t.data@ == le_bytes_32(bits@),
                Err(e) => bits@.len() != rows * cols && e == TensorError::ShapeMismatch,
            },
    {
        let len = bits.len();
        match rows.checked_mul(cols) {
            Some(n) => {
                if n != len {
                    return Err(TensorError::ShapeMismatch);
                }
            },
            None => {
                return Err(TensorError::ShapeMismatch);
            },
        }
        let mut data: Vec<u8> = Vec::new();
        let mut i: usize = 0;
        while i < bits.len()
            invariant
                i <= bits@.len(),
                data@ =~= le_bytes_32(bits@.take(i as int)),
            decreases bits.len() - i,
        {
            let w = bits[i];
            data.push((w % 256) as u8);
            data.push(((w / 256) % 256) as u8);
            data.push(((w / 65536) % 256) as u8);
            data.push((w / 16777216) as u8);
            assert(data@ =~= le_bytes_32(bits@.take(i + 1)));
            i = i + 1;
        }
        assert(bits@.take(i as int) =~= bits@);
        Ok(TensorBuffer { element: ElementType::F32, rows, cols, data })
    }

    /// The element type.
    pub fn dtype(&self) -> (r: ElementType)
        ensures
            r == self.element,
    {
        self.element
    }

    /// The shape, rows first.
    pub fn shape(&self) -> (r: (usize, usize))
        ensures
            r == (self.rows, self.cols),
    {
        (self.rows, self.cols)
    }

    /// The bytes.
    pub fn data(&self) -> (r: &Vec<u8>)
        ensures
            r@ == self.data@,
    {
        &self.data
    }

    /// The number of bytes.
    pub fn data_len(&self) -> (r: usize)
        ensures
            r == self.data@.len(),
    {
        self.data.len()
    }

    /// Whether the bytes match the shape and element type.
    pub fn is_consistent(&self) -> (r: bool)
        ensures
            r == self.consistent(),
    {
        let w = self.element.width();
        let len = self.data.len();
        match self.rows.checked_mul(self.cols) {
            Some(n) => match n.checked_mul(w) {
                Some(m) => m == len,
                None => {
                    false
                },
            },
            None => {
                assert(self.rows * self.cols * w >= self.rows * self.cols) by (nonlinear_arith)
                    requires w >= 1;
                false
            },
        }
    }
}

/// The decimal digits of `n`, most significant first.
pub open spec fn decimal(n: nat) -> Seq<char>
    decreases n,
{
    if n < 10 {
        seq![digit_char(n)]
    } else {
        decimal(n / 10).push(digit_char(n % 10))
    }
}

/// The character of a decimal digit.
pub open spec fn digit_char(d: nat) -> char {
    if d == 0 { '0' } else if d == 1 { '1' } else if d == 2 { '2' } else if d == 3 { '3' } else if d == 4 {
        '4'
    } else if d == 5 { '5' } else if d == 6 { '6' } else if d == 7 { '7' } else if d == 8 { '8' } else { '9' }
}

fn digit_str(d: u32) -> (r: &'static str)
    requires
        d < 10,
    ensures
        r@ == seq![digit_char(d as nat)],
{
    proof {
        reveal_strlit("0");
        reveal_strlit("1");
        reveal_strlit("2");
        reveal_strlit("3");
        reveal_strlit("4");
        reveal_strlit("5");
        reveal_strlit("6");
        reveal_strlit("7");
        reveal_strlit("8");
        reveal_strlit("9");
    }
    let r = if d == 0 { "0" } else if d == 1 { "1" } else if d == 2 { "2" } else if d == 3 { "3" } else if d == 4 {
        "4"
    } else if d == 5 { "5" } else if d == 6 { "6" } else if d == 7 { "7" } else if d == 8 { "8" } else { "9" };
    assert(r@ =~= seq![digit_char(d as nat)]);
    r
}

fn append_decimal(s: &mut String, n: u32)
    ensures
        final(s)@ == old(s)@ + decimal(n as nat),
    decreases n,
{
    if n >= 10 {
        append_decimal(s, n / 10);
    }
    s.append(digit_str(n % 10));
    proof {
        if n >= 10 {
            assert(old(s)@ + decimal((n / 10) as nat) + seq![digit_char((n % 10) as nat)] =~= old(s)@ + decimal(n as nat));
        } else {
            assert(old(s)@ + seq![digit_char((n % 10) as nat)] =~= old(s)@ + decimal(n as nat));
        }
    }
}

/// The band key given to band `index` of a multi-band file: `B` and the index
/// in decimal.
pub open spec fn synthesized_band_key_spec(index: nat) -> Seq<char> {
    seq!['B'] + decimal(index)
}

/// The band key given to band `index` of a multi-band file, as in `B7`.
pub fn synthesized_band_key(index: u32) -> (r: String)
    ensures
        r@ == synthesized_band_key_spec(index as nat),
{
    proof {
        reveal_strlit("B");
    }
    let mut s = String::from_str("B");
    assert(s@ =~= seq!['B']);
    append_decimal(&mut s, index);
    s
}

/// One band to read for an archive: band `band_index` (counted from 1) of
/// the file at `path`, stored under `name`.
#[derive(Clone, Debug)]
pub struct BandRequest {
    pub path: String,
    pub band_index: u32,
    pub name: String,
}

/// What a `BandRequest` asks for, as text and number.
pub open spec fn request_model(r: BandRequest) -> (Seq<char>, nat, Seq<char>) {
    (r.path@, r.band_index as nat, r.name@)
}

/// The bands that the archive of `g` holds, in order: for profiles with one
/// band per file, band 1 of each file under its band key; otherwise every band
/// of each file, under its synthesized key.
pub open spec fn planned_request(p: DatasetProfile, g: SampleGroup, k: int) -> (Seq<char>, nat, Seq<char>) {
    let n = p.bands_per_file_spec() as int;
    let f = g.files@[k / n];
    if n == 1 {
        (f.path@, 1, f.band_key@)
    } else {
        (f.path@, (k % n + 1) as nat, synthesized_band_key_spec((k % n + 1) as nat))
    }
}

/// Lists the bands to read for the archive of one sample, in archive order.
pub fn plan_bands(p: DatasetProfile, g: &SampleGroup) -> (r: Vec<BandRequest>)
    requires
        g.files@.len() * p.bands_per_file_spec() <= usize::MAX,
    ensures
        r@.len() == g.files@.len() * p.bands_per_file_spec(),
        forall|k: int| 0 <= k < r@.len() ==> request_model(#[trigger] r@[k]) == planned_request(p, *g, k),
{
    let n = p.bands_per_file();
    let mut r: Vec<BandRequest> = Vec::new();
    let mut i: usize = 0;
    while i < g.files.len()
        invariant
            n == p.bands_per_file_spec(),
            n >= 1,
            i <= g.files@.len(),
            g.files@.len() * n <= usize::MAX,
            r@.len() == i * n,
            forall|k: int| 0 <= k < r@.len() ==> request_model(#[trigger] r@[k]) == planned_request(p, *g, k),
        decreases g.files.len() - i,
    {
        let f = &g.files[i];
        if n == 1 {
            r.push(BandRequest { path: f.path.clone(), band_index: 1, name: f.band_key.clone() });
            proof {
                assert(planned_request(p, *g, i as int) == request_model(r@[i as int])) by {
                    assert((i as int) / 1 == i as int);
                }
            }
        } else {
            let mut b: u32 = 1;
            while b <= n
                invariant
                    n == p.bands_per_file_spec(),
                    n > 1,
                    1 <= b <= n + 1,
                    i < g.files@.len(),
                    f == g.files@[i as int],
                    g.files@.len() * n <= usize::MAX,
                    r@.len() == i * n + (b - 1),
                    forall|k: int| 0 <= k < r@.len() ==> request_model(#[trigger] r@[k]) == planned_request(p, *g, k),
                decreases n + 1 - b,
            {
                assert(r@.len() < usize::MAX) by (nonlinear_arith)
                    requires r@.len() == i * n + (b - 1), b <= n, i < g.files@.len(), g.files@.len() * n <= usize::MAX;
                r.push(BandRequest { path: f.path.clone(), band_index: b, name: synthesized_band_key(b) });
                proof {
                    let k = i * n + (b - 1);
                    assert(k / (n as int) == i as int && k % (n as int) == b - 1) by (nonlinear_arith)
                        requires k == i * n + (b - 1), 1 <= b <= n, n > 1;
                    assert(request_model(r@[k]) == planned_request(p, *g, k));
                }
                b = b + 1;
            }
        }
        proof {
            assert((i + 1) * n == i * n + n) by (nonlinear_arith);
            assert((i + 1) * n <= g.files@.len() * n) by (nonlinear_arith)
                requires i + 1 <= g.files@.len(), n >= 1;
        }
        i = i + 1;
    }
    r
}

} // verus!
