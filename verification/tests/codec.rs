use hyperloglockless::{Buf, DiffVec, VarInt};

#[test]
fn vint_simple() {
    let mut buf = Buf::new(100, 100);
    VarInt::write(&mut buf, 43);
    let (res, _) = VarInt::read(&buf, 0);
    assert_eq!(res, 43);
}

#[test]
fn vint_codec() {
    let mut buf = Buf::new(100, 100);
    VarInt::write(&mut buf, 42);
    VarInt::write(&mut buf, 256);
    let (decoded_first, i) = VarInt::read(&buf, 0);
    let (decoded_second, _) = VarInt::read(&buf, i);
    assert_eq!(decoded_first, 42);
    assert_eq!(decoded_second, 256);
}

#[test]
fn codec_perm() {
    let mut buf = Buf::new(100, 100);
    let vals = [0, 1, 2, 42, 256, 5515, 99049043, u32::MAX];
    for first in vals.iter() {
        for second in vals.iter() {
            VarInt::write(&mut buf, *first);
            VarInt::write(&mut buf, *second);
            let (decoded_first, i) = VarInt::read(&buf, 0);
            let (decoded_second, _) = VarInt::read(&buf, i);
            assert_eq!(decoded_first, *first);
            assert_eq!(decoded_second, *second);
            buf = Buf::new(100, 100);
        }
    }
}

#[test]
fn diff_vec() {
    let vals = [0, 1, 2, 42, 256, 5515, 99049043, u32::MAX - 1, u32::MAX];

    let mut v = DiffVec::with_size(100, 100);
    for x in vals.iter() {
        v.push(*x);
    }

    for (i, x) in vals.into_iter().enumerate() {
        assert_eq!(x, vals[i]);
    }
}

#[test]
fn diff_stream_roundtrip() {
    let vals = [1u32, 2, 42, 256, 5515, 99049043, u32::MAX - 1, u32::MAX];
    let mut v = DiffVec::with_size(0, 100);
    for x in vals.iter() {
        v.push(*x);
    }
    assert_eq!(v.len(), vals.len());
    let mut it = v.into_iter();
    let mut decoded = Vec::new();
    while let Some(x) = it.next() {
        decoded.push(x);
    }
    assert_eq!(decoded, vals.to_vec());
}

#[test]
fn diff_vec_drops_adjacent_duplicates() {
    let mut v = DiffVec::with_size(0, 100);
    v.push(7);
    v.push(7);
    v.push(9);
    v.push(9);
    assert_eq!(v.len(), 2);
    let mut it = v.into_iter();
    assert_eq!(it.next(), Some(7));
    assert_eq!(it.next(), Some(9));
    assert_eq!(it.next(), None);
}
