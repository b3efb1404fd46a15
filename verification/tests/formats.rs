//! Number formats, array files and tensor descriptors.

use tessl::mtl_tensor::{
    check_tensor_offset, make_descriptor, nax_verify_readiness, plan_tensor, TensorDataType,
};
use tessl::npy::{read_npy, transpose_last2, write_npy_f32};
use tessl::tensor::{bf16_bits_to_f32, f32_slice_to_bf16, f32_to_bf16_bits};
use tessl::text::{decimal_string, parse_count};
use tessl::QuantDType;

fn bits(v: &[f32]) -> Vec<u32> {
    v.iter().map(|x| x.to_bits()).collect()
}

/// A version-1 file with the given header text and payload.
fn file(header: &[u8], payload: &[u8]) -> Vec<u8> {
    let mut f = b"\x93NUMPY\x01\x00".to_vec();
    f.extend((header.len() as u16).to_le_bytes());
    f.extend(header);
    f.extend(payload);
    f
}

// ----------------------------------------------------------------- bf16 ----

#[test]
fn bf16_preserves_special_values_and_ties() {
    for bits in [0x7f800001u32, 0x7fffffff, 0xff800001, 0xffffffff] {
        assert!(
            f32::from_bits(bf16_bits_to_f32(f32_to_bf16_bits(bits))).is_nan(),
            "NaN payload {bits:x} became finite or infinity"
        );
    }
    for bits in [0u32, 0x80000000, 0x7f800000, 0xff800000] {
        assert_eq!(f32_to_bf16_bits(bits), (bits >> 16) as u16);
    }
    assert_eq!(f32_to_bf16_bits(0x3f808000), 0x3f80);
    assert_eq!(f32_to_bf16_bits(0x3f818000), 0x3f82);
    for b in 0..=u16::MAX {
        let x = bf16_bits_to_f32(b);
        if !f32::from_bits(x).is_nan() {
            assert_eq!(f32_to_bf16_bits(x), b);
        }
    }
}

#[test]
fn bf16_slices_round_elementwise() {
    let data = bits(&[1.0, -2.5, 3.1415927]);
    assert_eq!(f32_slice_to_bf16(&data), [0x3f80, 0xc020, 0x4049]);
    assert!(f32_slice_to_bf16(&[]).is_empty());
}

// ----------------------------------------------------------- descriptors ---

#[test]
fn quant_dtype_int8_maps() {
    assert!(QuantDType::Int8.to_mtl().is_ok());
    let err = QuantDType::Int4.to_mtl().unwrap_err();
    assert!(err.contains("Int4"), "{err}");
    assert!(
        err.contains("unbound") || err.contains("not in objc2"),
        "{err}"
    );
    assert!(QuantDType::Fp8E8M0.to_mtl().is_err());
}

#[test]
fn nax_verify_readiness_int4_unbound() {
    let r = nax_verify_readiness();
    assert!(r.int8_tensorops_dtype);
    assert!(!r.int4_tensorops_dtype);
    assert!(!r.fp8_e8m0_tensorops_dtype);
    assert!(!r.quant_prefill_gemm_wired);
    assert!(r.note.contains("Int4 unbound"));
}

#[test]
fn quant_descriptor_builds_for_int8() {
    let desc = make_descriptor(&[64, 64], TensorDataType::Int8).expect("descriptor");
    assert_eq!(desc.dtype, TensorDataType::Int8);
    assert_eq!(desc.dims.len(), 2);
}

#[test]
fn descriptors_bound_rank_offset_and_type() {
    assert_eq!(
        make_descriptor(&[], TensorDataType::Int8).unwrap_err(),
        "MTLTensor rank 0 out of range 1..=16"
    );
    assert!(make_descriptor(&[1; 16], TensorDataType::Int8).is_ok());
    assert!(make_descriptor(&[1; 17], TensorDataType::Int8).is_err());
    // The type is asked about before the rank.
    assert!(plan_tensor(&[], QuantDType::Int4).unwrap_err().contains("Int4"));
    assert!(check_tensor_offset(128, 64).is_ok());
    assert_eq!(
        check_tensor_offset(96, 64).unwrap_err(),
        "tensor buffer offset 96 not aligned to 64"
    );
    assert_eq!(f32::from_bits(QuantDType::Int8.bytes_per_elem_hint()), 1.0);
    assert_eq!(f32::from_bits(QuantDType::Int4.bytes_per_elem_hint()), 0.5);
}

// ------------------------------------------------------------------- npy ---

#[test]
fn floats_read_back_as_written() {
    for (shape, n) in [(vec![2usize, 3], 6usize), (vec![5], 5), (vec![], 1), (vec![0, 7], 0)] {
        let data: Vec<u32> = (0..n as u32).map(|i| 0x3f80_0000 + i).collect();
        let bytes = write_npy_f32(&shape, &data).unwrap();
        let a = read_npy(&bytes, "x.npy").unwrap();
        assert_eq!(a.shape, shape);
        assert_eq!(a.f32_slice().unwrap(), data);
        assert_eq!(a.i64_slice().unwrap_err(), "expected int64 npy");
    }
}

#[test]
fn written_files_have_the_documented_layout() {
    let bytes = write_npy_f32(&[2], &bits(&[1.0, 2.0])).unwrap();
    assert_eq!(&bytes[..8], b"\x93NUMPY\x01\x00");
    let len = u16::from_le_bytes([bytes[8], bytes[9]]) as usize;
    let header = std::str::from_utf8(&bytes[10..10 + len]).unwrap();
    assert!(
        header.starts_with("{'descr': '<f4', 'fortran_order': False, 'shape': (2,), }"),
        "{header:?}"
    );
    assert!(header.ends_with('\n'));
    assert_eq!(&bytes[10 + len..], b"\x00\x00\x80\x3f\x00\x00\x00\x40");
}

#[test]
fn payloads_start_at_aligned_bytes() {
    for rank in 0..9usize {
        let shape = vec![1usize; rank];
        let bytes = write_npy_f32(&shape, &[0]).unwrap();
        assert_eq!((bytes.len() - 4) % 64, 0, "rank {rank}");
    }
}

#[test]
fn longs_and_version_two_are_read() {
    let header = b"{'descr': '<i8', 'fortran_order': False, 'shape': (2,), }";
    let mut payload = (-3i64).to_le_bytes().to_vec();
    payload.extend(0x1234_5678_9abci64.to_le_bytes());
    let a = read_npy(&file(header, &payload), "x").unwrap();
    assert_eq!(a.i64_slice().unwrap(), [-3, 0x1234_5678_9abc]);
    assert_eq!(a.f32_slice().unwrap_err(), "expected float32 npy");

    let mut v2 = b"\x93NUMPY\x02\x00".to_vec();
    v2.extend((header.len() as u32).to_le_bytes());
    v2.extend(header);
    v2.extend(&payload);
    assert_eq!(read_npy(&v2, "x").unwrap().i64_slice().unwrap()[0], -3);
}

#[test]
fn scalars_are_single_elements() {
    let one = read_npy(&write_npy_f32(&[1], &bits(&[7.5])).unwrap(), "x").unwrap();
    assert_eq!(one.scalar_f32().unwrap(), 7.5f32.to_bits());
    let two = read_npy(&write_npy_f32(&[2], &[0, 0]).unwrap(), "x").unwrap();
    assert_eq!(two.scalar_f32().unwrap_err(), "expected scalar, got 2 elems");
}

#[test]
fn doubles_are_read_as_scalars_only() {
    let header = b"{'descr': '<f8', 'fortran_order': False, 'shape': (), }";
    let a = read_npy(&file(header, &0.1f64.to_le_bytes()), "x").unwrap();
    assert_eq!(a.data_f64, Some(0.1f64.to_bits()));
    assert_eq!(a.shape, Vec::<usize>::new());
    assert_eq!(a.f32_slice().unwrap_err(), "expected float32 npy");
    assert_eq!(a.i64_slice().unwrap_err(), "expected int64 npy");
    // Bytes past the eighth are not looked at.
    let mut longer = (-2.5f64).to_le_bytes().to_vec();
    longer.push(7);
    let a = read_npy(&file(header, &longer), "x").unwrap();
    assert_eq!(a.data_f64, Some((-2.5f64).to_bits()));
    assert!(read_npy(&file(header, &[0; 7]), "x").unwrap_err().starts_with("f64 payload"));
    // The other kinds of file hold no double.
    assert_eq!(read_npy(&write_npy_f32(&[1], &[0]).unwrap(), "x").unwrap().data_f64, None);
}

#[test]
fn broken_files_say_where() {
    let good = write_npy_f32(&[2], &[1, 2]).unwrap();
    assert!(read_npy(&good[..4], "x").unwrap_err().starts_with("read magic"));
    assert_eq!(
        read_npy(b"PK\x03\x04zip, not npy", "a.npy").unwrap_err(),
        "not an npy file: a.npy"
    );
    assert!(read_npy(&good[..7], "x").unwrap_err().starts_with("ver"));
    assert!(read_npy(&good[..9], "x").unwrap_err().starts_with("hlen"));
    assert!(read_npy(&good[..20], "x").unwrap_err().starts_with("header"));
    assert!(read_npy(&good[..good.len() - 1], "x")
        .unwrap_err()
        .starts_with("f32 payload"));
    let doubles = b"{'descr': '<f8', 'fortran_order': False, 'shape': (1,), }";
    assert_eq!(
        read_npy(&file(doubles, &[0; 8]), "d.npy").unwrap_err(),
        "unsupported dtype <f8 in d.npy"
    );
}

#[test]
fn headers_that_are_not_text_are_still_searched() {
    // The stray byte becomes a replacement character; the rest is read.
    let header = b"{\xff'descr': '<f4', 'fortran_order': False, 'shape': (1,), }";
    let a = read_npy(&file(header, &1.5f32.to_le_bytes()), "x").unwrap();
    assert_eq!(a.scalar_f32().unwrap(), 1.5f32.to_bits());
    // In the place of the element type it shows.
    let header = b"{'descr': '<\xff', 'fortran_order': False, 'shape': (1,), }";
    assert_eq!(
        read_npy(&file(header, &[0; 4]), "x").unwrap_err(),
        "unsupported dtype <\u{fffd} in x"
    );
}

#[test]
fn writing_checks_the_count() {
    assert_eq!(
        write_npy_f32(&[2, 3], &[0; 5]).unwrap_err(),
        "write_npy shape [2, 3] expects 6 elems, got 5"
    );
    assert!(write_npy_f32(&[usize::MAX, 2], &[]).unwrap_err().contains("overflows usize"));
}

#[test]
fn transposing_swaps_the_last_two_axes() {
    let mut data: Vec<u32> = (0..12).collect();
    let mut shape = vec![2usize, 2, 3];
    transpose_last2(&mut data, &mut shape).unwrap();
    assert_eq!(shape, [2, 3, 2]);
    assert_eq!(data, [0, 3, 1, 4, 2, 5, 6, 9, 7, 10, 8, 11]);
    transpose_last2(&mut data, &mut shape).unwrap();
    assert_eq!(shape, [2, 2, 3]);
    assert_eq!(data, (0..12).collect::<Vec<u32>>());
    assert!(transpose_last2(&mut vec![1], &mut vec![1]).is_err());
}

// ------------------------------------------------------------------ text ---

#[test]
fn counts_print_and_parse() {
    for n in [0u64, 7, 10, 4096, u64::MAX] {
        assert_eq!(decimal_string(n), n.to_string());
    }
    assert_eq!(parse_count("4096"), Some(4096));
    assert_eq!(parse_count("+12"), Some(12));
    for bad in ["", "+", "-1", "12 ", "1_000", "18446744073709551616"] {
        assert_eq!(parse_count(bad), None, "{bad:?}");
    }
}
