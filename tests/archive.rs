use raster_archive::archive::{encode_sample, header_length, EncodeError};
use raster_archive::tensor::{synthesized_band_key, ElementType, PixelType, TensorBuffer, TensorError};
use safetensors::{Dtype, SafeTensors};

fn strings(v: &[&str]) -> Vec<String> {
    v.iter().map(|s| s.to_string()).collect()
}

#[test]
fn u16_values_become_little_endian_bytes() {
    let t = TensorBuffer::from_u16(1, 2, &vec![0x0102, 0xA0B0]).unwrap();
    assert_eq!(t.data, vec![0x02, 0x01, 0xB0, 0xA0]);
    assert_eq!(t.shape(), (1, 2));
    assert_eq!(t.dtype(), ElementType::U16);
    assert_eq!(t.data_len(), 4);
}

#[test]
fn i16_values_become_twos_complement_bytes() {
    let t = TensorBuffer::from_i16(2, 1, &vec![-1, 258]).unwrap();
    assert_eq!(t.data, vec![0xFF, 0xFF, 0x02, 0x01]);
    assert_eq!(t.element, ElementType::I16);
}

#[test]
fn f32_bits_become_little_endian_bytes() {
    let t = TensorBuffer::from_f32_bits(1, 1, &vec![1.0f32.to_bits()]).unwrap();
    assert_eq!(t.data, vec![0x00, 0x00, 0x80, 0x3F]);
    assert_eq!(t.element, ElementType::F32);
}

#[test]
fn wrong_value_count_is_a_shape_mismatch() {
    assert_eq!(TensorBuffer::from_u16(2, 2, &vec![1, 2, 3]).unwrap_err(), TensorError::ShapeMismatch);
    assert_eq!(TensorBuffer::from_i16(usize::MAX, 2, &vec![1]).unwrap_err(), TensorError::ShapeMismatch);
    assert_eq!(TensorBuffer::from_f32_bits(1, 2, &vec![0]).unwrap_err(), TensorError::ShapeMismatch);
}

#[test]
fn pixel_types_map_to_element_types() {
    assert_eq!(ElementType::of_pixel(PixelType::UInt16), Ok(ElementType::U16));
    assert_eq!(ElementType::of_pixel(PixelType::Int16), Ok(ElementType::I16));
    assert_eq!(ElementType::of_pixel(PixelType::Float32), Ok(ElementType::F32));
    assert_eq!(ElementType::of_pixel(PixelType::Other), Err(TensorError::UnsupportedPixelType));
    assert_eq!(ElementType::F32.width(), 4);
    assert_eq!(ElementType::I16.width(), 2);
}

#[test]
fn synthesized_keys_are_b_and_index() {
    assert_eq!(synthesized_band_key(1), "B1");
    assert_eq!(synthesized_band_key(7), "B7");
    assert_eq!(synthesized_band_key(224), "B224");
    assert_eq!(synthesized_band_key(0), "B0");
}

#[test]
fn encoded_archive_round_trips() {
    let a = TensorBuffer::from_u16(2, 3, &vec![1, 2, 3, 4, 5, 6]).unwrap();
    let b = TensorBuffer::from_i16(1, 2, &vec![-7, 7]).unwrap();
    let c = TensorBuffer::from_f32_bits(2, 2, &vec![0.5f32.to_bits(), 1.5f32.to_bits(), 2.0f32.to_bits(), 3.25f32.to_bits()]).unwrap();
    let names = strings(&["B02", "B03", "B04"]);
    let tensors = vec![a.clone(), b.clone(), c.clone()];
    let blob = encode_sample(&names, &tensors).unwrap();
    let n = header_length(&blob).unwrap() as usize;
    assert_eq!(n % 8, 0);
    assert_eq!(blob.len(), 8 + n + a.data.len() + b.data.len() + c.data.len());
    let parsed = SafeTensors::deserialize(&blob).unwrap();
    assert_eq!(parsed.len(), 3);
    let expect = [("B02", Dtype::U16, vec![2, 3], &a.data), ("B03", Dtype::I16, vec![1, 2], &b.data), ("B04", Dtype::F32, vec![2, 2], &c.data)];
    for (name, dtype, shape, data) in expect.iter() {
        let view = parsed.tensor(name).unwrap();
        assert_eq!(view.dtype(), *dtype);
        assert_eq!(view.shape(), shape.as_slice());
        assert_eq!(view.data(), data.as_slice());
    }
}

#[test]
fn encoding_is_reproducible() {
    let a = TensorBuffer::from_u16(1, 2, &vec![9, 10]).unwrap();
    let names = strings(&["VH"]);
    let first = encode_sample(&names, &vec![a.clone()]).unwrap();
    let second = encode_sample(&names, &vec![a]).unwrap();
    assert_eq!(first, second);
}

#[test]
fn encode_rejects_count_mismatch() {
    let a = TensorBuffer::from_u16(1, 1, &vec![1]).unwrap();
    assert_eq!(encode_sample(&strings(&["a", "b"]), &vec![a]), Err(EncodeError::CountMismatch));
}

#[test]
fn encode_rejects_byte_length_mismatch() {
    let good = TensorBuffer::from_u16(1, 1, &vec![1]).unwrap();
    let bad = TensorBuffer { element: ElementType::F32, rows: 1, cols: 1, data: vec![0, 0] };
    assert!(!bad.is_consistent());
    assert_eq!(encode_sample(&strings(&["a", "b"]), &vec![good, bad]), Err(EncodeError::ByteLengthMismatch(1)));
}

#[test]
fn encode_rejects_repeated_names() {
    let a = TensorBuffer::from_u16(1, 1, &vec![1]).unwrap();
    assert_eq!(encode_sample(&strings(&["x", "y", "x"]), &vec![a.clone(), a.clone(), a]), Err(EncodeError::DuplicateName(0, 2)));
}

#[test]
fn archive_data_follows_serializer_order() {
    let names = strings(&["B8A", "B12", "B02"]);
    let tensors: Vec<TensorBuffer> = (0..3).map(|i| TensorBuffer::from_u16(1, 1, &vec![i]).unwrap()).collect();
    let blob = encode_sample(&names, &tensors).unwrap();
    let meta = SafeTensors::read_metadata(&blob).unwrap().1;
    let start = |n: &str| meta.info(n).unwrap().data_offsets.0;
    assert!(start("B02") < start("B12"));
    assert!(start("B12") < start("B8A"));
}

#[test]
fn header_length_needs_eight_bytes() {
    assert_eq!(header_length(&vec![1, 2, 3]), None);
    assert_eq!(header_length(&vec![8, 1, 0, 0, 0, 0, 0, 0, 9]), Some(264));
}
