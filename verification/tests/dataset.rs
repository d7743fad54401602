use skeg_cli::dataset::{header_span, parse_npy_shape, DatasetError, FormatError};
use skeg_cli::error::ErrorKind;
use skeg_cli::{read_header, read_vectors};

/// Encode a minimal valid NumPy v1.0 array of `n * dim` f32 values.
fn make_npy(n: usize, dim: usize, data: &[f32]) -> Vec<u8> {
    let dict = format!("{{'descr': '<f4', 'fortran_order': False, 'shape': ({n}, {dim}), }}");
    npy_with_dict(&dict, data)
}

fn npy_with_dict(dict: &str, data: &[f32]) -> Vec<u8> {
    // 10 fixed bytes + dict + trailing '\n', padded so the total is a
    // multiple of 64 (NumPy v1.0 alignment requirement).
    let unpadded = 10 + dict.len() + 1;
    let pad = (64 - unpadded % 64) % 64;
    let header_len = dict.len() + 1 + pad;
    let mut out = Vec::new();
    out.extend_from_slice(b"\x93NUMPY");
    out.push(1);
    out.push(0);
    out.extend_from_slice(&u16::try_from(header_len).unwrap().to_le_bytes());
    out.extend_from_slice(dict.as_bytes());
    out.resize(out.len() + pad, b' ');
    out.push(b'\n');
    for &x in data {
        out.extend_from_slice(&x.to_le_bytes());
    }
    out
}

fn make_fbin(n: usize, dim: usize, data: &[f32]) -> Vec<u8> {
    let mut out = Vec::new();
    out.extend_from_slice(&u32::try_from(n).unwrap().to_le_bytes());
    out.extend_from_slice(&u32::try_from(dim).unwrap().to_le_bytes());
    for &x in data {
        out.extend_from_slice(&x.to_le_bytes());
    }
    out
}

fn floats(bits: &[u32]) -> Vec<f32> {
    bits.iter().map(|b| f32::from_bits(*b)).collect()
}

fn format_error(r: Result<(Vec<u32>, usize, usize), DatasetError>) -> FormatError {
    match r {
        Err(DatasetError::Malformed(e)) => e,
        other => panic!("expected a format error, got {other:?}"),
    }
}

fn header_error(r: Result<(usize, usize, usize), DatasetError>) -> FormatError {
    match r {
        Err(DatasetError::Malformed(e)) => e,
        other => panic!("expected a format error, got {other:?}"),
    }
}

#[test]
fn npy_roundtrip() {
    let data: Vec<f32> = (0..12u8).map(f32::from).collect();
    let (got, n, dim) = read_vectors(Some("npy"), &make_npy(3, 4, &data)).unwrap();
    assert_eq!((n, dim), (3, 4));
    assert_eq!(floats(&got), data);
}

#[test]
fn fbin_roundtrip() {
    let data: Vec<f32> = (0..10u8).map(|i| f32::from(i) * 0.5).collect();
    let (got, n, dim) = read_vectors(Some("fbin"), &make_fbin(2, 5, &data)).unwrap();
    assert_eq!((n, dim), (2, 5));
    assert_eq!(floats(&got), data);
}

#[test]
fn truncated_fbin_is_rejected() {
    let mut bytes = make_fbin(2, 5, &[0.0; 10]);
    bytes.truncate(bytes.len() - 8);
    let r = read_vectors(Some("fbin"), &bytes);
    assert!(r.is_err());
    assert_eq!(format_error(r), FormatError::TruncatedFbinPayload);
}

#[test]
fn unknown_extension_is_rejected() {
    let r = read_vectors(Some("csv"), b"1,2,3");
    assert!(r.is_err());
    let e = r.unwrap_err();
    assert_eq!(e.kind(), ErrorKind::InvalidInput);
    assert_eq!(
        e.message(),
        "unsupported input extension \"csv\" (expected .npy or .fbin)"
    );
}

#[test]
fn missing_extension_is_rejected() {
    let e = read_header(None, b"").unwrap_err();
    assert_eq!(
        e.message(),
        "unsupported input extension \"\" (expected .npy or .fbin)"
    );
    assert!(header_span(None, b"").is_err());
}

#[test]
fn extension_is_shown_escaped() {
    let e = read_vectors(Some("c+v ~1"), b"").unwrap_err();
    assert_eq!(
        e.message(),
        "unsupported input extension \"c+v ~1\" (expected .npy or .fbin)"
    );
    let e = read_vectors(Some("a\"b"), b"").unwrap_err();
    assert_eq!(
        e.message(),
        "unsupported input extension \"a\\\"b\" (expected .npy or .fbin)"
    );
}

#[test]
fn extensions_are_case_sensitive() {
    assert!(read_vectors(Some("NPY"), &make_npy(1, 1, &[1.0])).is_err());
    assert!(read_vectors(Some("bin"), &make_fbin(1, 1, &[1.0])).is_ok());
}

#[test]
fn npy_errors_name_what_is_wrong() {
    let good = make_npy(3, 4, &[0.5; 12]);
    assert_eq!(format_error(read_vectors(Some("npy"), &good[..9])), FormatError::NotNpy);
    let mut bad = good.clone();
    bad[1] = b'n';
    assert_eq!(format_error(read_vectors(Some("npy"), &bad)), FormatError::NotNpy);
    let mut bad = good.clone();
    bad[6] = 2;
    assert_eq!(format_error(read_vectors(Some("npy"), &bad)), FormatError::NpyVersion);
    assert_eq!(
        format_error(read_vectors(Some("npy"), &good[..40])),
        FormatError::TruncatedNpyHeader
    );
    let mut bad = good.clone();
    bad[12] = 0xff;
    assert_eq!(format_error(read_vectors(Some("npy"), &bad)), FormatError::NonUtf8NpyHeader);
    assert_eq!(
        format_error(read_vectors(Some("npy"), &good[..good.len() - 1])),
        FormatError::TruncatedNpyPayload
    );
    let order = npy_with_dict(
        "{'descr': '<f4', 'fortran_order': True, 'shape': (3, 4), }",
        &[0.5; 12],
    );
    assert_eq!(format_error(read_vectors(Some("npy"), &order)), FormatError::FortranOrder);
}

#[test]
fn npy_shape_errors() {
    assert_eq!(
        parse_npy_shape("{'descr': '<f8', 'shape': (3, 4), }"),
        Err(FormatError::NotFloat32)
    );
    assert_eq!(
        parse_npy_shape("{'descr': [('a', '<f4'), ('b', '<f4')], 'shape': (3, 4), }"),
        Err(FormatError::NotFloat32)
    );
    assert_eq!(parse_npy_shape("{'descr': '<f4', }"), Err(FormatError::NoNpyShape));
    assert_eq!(
        parse_npy_shape("{'descr': '<f4', 'shape': 3, 4}"),
        Err(FormatError::MalformedNpyShape)
    );
    assert_eq!(
        parse_npy_shape("{'descr': '<f4', 'shape': (3, 4"),
        Err(FormatError::MalformedNpyShape)
    );
    assert_eq!(
        parse_npy_shape("{'descr': '<f4', 'shape': (3,), }"),
        Err(FormatError::NotTwoDimensional)
    );
    assert_eq!(
        parse_npy_shape("{'descr': '<f4', 'shape': (3, 4, 5), }"),
        Err(FormatError::NotTwoDimensional)
    );
    assert_eq!(parse_npy_shape("{'descr': '<f4', 'shape': (3, 4,), }"), Ok((3, 4)));
    assert_eq!(
        parse_npy_shape("{'shape': (\u{a0}7 ,\t+8), \"descr\" :\t'<f4'}"),
        Ok((7, 8))
    );
}

#[test]
fn npy_arrays_that_are_not_two_dimensional() {
    for shape in [
        "(18446744073709551616, 3, 4)",
        "(3, 18446744073709551616, 4)",
        "(3, 4, 18446744073709551616)",
        "(3, 4, x)",
        "(3, , 4)",
        "(, 3, 4)",
        "(3, 4, ,)",
        "(3, -4)",
        "()",
        "(,)",
        "((3, 4), 5)",
    ] {
        let header =
            format!("{{'descr': '<f4', 'fortran_order': False, 'shape': {shape}, }}");
        assert_eq!(parse_npy_shape(&header), Err(FormatError::NotTwoDimensional), "{shape}");
    }
    assert_eq!(
        parse_npy_shape("{'descr': '<f4', 'shape': 12, 'other': (3, 4), }"),
        Err(FormatError::MalformedNpyShape)
    );
}

#[test]
fn npy_items_that_are_not_float32() {
    for descr in [
        "'<f8'",
        "'>f4'",
        "[('a','<f4')]",
        " [('a', '<f4')]",
        "('<f4', (2,))",
        "'<f4x'",
        "'<f4' + ''",
        "None, 'was': '<f4'",
    ] {
        let header = format!("{{'descr':{descr}, 'fortran_order': False, 'shape': (3, 4), }}");
        assert_eq!(parse_npy_shape(&header), Err(FormatError::NotFloat32), "{descr}");
    }
    assert_eq!(
        parse_npy_shape("{'shape': (3, 4), 'other': '<f4'}"),
        Err(FormatError::NotFloat32)
    );
    for header in [
        "{'descr':'<f4','shape':(3,4)}",
        "{ 'descr' : '<f4' , 'fortran_order' : False , 'shape': (3, 4) }",
        "{'shape': (3, 4,), 'fortran_order': False, 'descr': '<f4'}",
    ] {
        assert_eq!(parse_npy_shape(header), Ok((3, 4)), "{header}");
    }
}

#[test]
fn npy_arrays_in_column_order() {
    for order in ["'fortran_order':True", "'fortran_order' :\t True", "\"fortran_order\": True"] {
        let header = format!("{{'descr': '<f4', {order}, 'shape': (3, 4), }}");
        assert_eq!(parse_npy_shape(&header), Err(FormatError::FortranOrder), "{order}");
    }
}

#[test]
fn header_messages() {
    let e = read_header(Some("npy"), b"\x93NUMPY\x01").unwrap_err();
    assert_eq!(e.kind(), ErrorKind::InvalidData);
    assert_eq!(e.message(), "truncated .npy header");
    assert_eq!(
        header_error(read_header(Some("fbin"), &[0; 7])),
        FormatError::TruncatedFbinHeader
    );
    assert_eq!(FormatError::NotTwoDimensional.message(), "expected a 2-D .npy array");
}

#[test]
fn header_needs_no_payload() {
    let file = make_npy(3, 4, &[0.25; 12]);
    let span = header_span(Some("npy"), &file[..10]).unwrap();
    assert_eq!(span, 128);
    assert_eq!(read_header(Some("npy"), &file[..span]).unwrap(), (128, 3, 4));
    assert_eq!(read_header(Some("npy"), &file).unwrap(), (128, 3, 4));
    assert!(read_header(Some("npy"), &file[..span - 1]).is_err());

    let file = make_fbin(2, 5, &[0.25; 10]);
    assert_eq!(header_span(Some("bin"), &file[..10]).unwrap(), 8);
    assert_eq!(read_header(Some("bin"), &file[..8]).unwrap(), (8, 2, 5));
}

#[test]
fn trailing_bytes_do_not_matter() {
    let mut file = make_fbin(1, 2, &[1.5, -2.0]);
    file.push(7);
    let (got, n, dim) = read_vectors(Some("fbin"), &file).unwrap();
    assert_eq!((floats(&got), n, dim), (vec![1.5, -2.0], 1, 2));
}

#[test]
fn a_shape_that_cannot_be_held_is_truncated() {
    let mut file = Vec::new();
    file.extend_from_slice(&0x7fff_ffffu32.to_le_bytes());
    file.extend_from_slice(&0x8000_0001u32.to_le_bytes());
    assert_eq!(
        format_error(read_vectors(Some("fbin"), &file)),
        FormatError::TruncatedFbinPayload
    );
}
