use rand::{thread_rng, Rng};
use rust_base32::{write_u8, Engine, Error, NaiveEngine};

fn string_encode<E: Engine>(data: &[u8]) -> String {
    let mut buf = [0u8; 1024];

    let size = E::encode(data, &mut buf).unwrap();

    String::from_utf8_lossy(&buf[0..size]).to_string()
}

fn required_len(n: usize) -> usize {
    (8 * n + 4) / 5
}

#[test]
fn it_works() {
    let data = [0xff];
    assert_eq!(string_encode::<NaiveEngine>(&data), "7H".to_string());

    let data = [0xff, 0xff];
    assert_eq!(string_encode::<NaiveEngine>(&data), "777B".to_string());

    let data = [0xff, 0xff, 0xff];
    assert_eq!(string_encode::<NaiveEngine>(&data), "7777P".to_string());
}

#[test]
fn prop_test() {
    let mut rng = thread_rng();

    for _i in 0..10000 {
        let data: Vec<u8> = (0..(rng.gen::<i32>() % 200))
            .into_iter()
            .map(|_| rng.gen())
            .collect();

        string_encode::<NaiveEngine>(&data);
    }
}

#[test]
fn empty_input_writes_nothing() {
    assert_eq!(string_encode::<NaiveEngine>(&[]), "".to_string());

    let mut none: [u8; 0] = [];
    assert_eq!(NaiveEngine::encode(&[], &mut none), Ok(0));

    let mut buf = [9u8; 4];
    assert_eq!(NaiveEngine::encode(&[], &mut buf), Ok(0));
    assert_eq!(buf, [9u8; 4]);
}

#[test]
fn four_and_five_bytes() {
    assert_eq!(string_encode::<NaiveEngine>(&[0xff; 4]), "777777D".to_string());
    assert_eq!(string_encode::<NaiveEngine>(&[0xff; 5]), "77777777".to_string());
    assert_eq!(string_encode::<NaiveEngine>(&[0x00; 5]), "AAAAAAAA".to_string());
    assert_eq!(string_encode::<NaiveEngine>(&[0xff; 10]), "7".repeat(16));
}

#[test]
fn bits_are_read_low_first() {
    assert_eq!(string_encode::<NaiveEngine>(&[0x01]), "BA".to_string());
    assert_eq!(string_encode::<NaiveEngine>(&[0x20]), "AB".to_string());
    assert_eq!(string_encode::<NaiveEngine>(&[0x00, 0x01]), "AIAA".to_string());
}

#[test]
fn exact_buffer_is_filled() {
    let data = [0xff, 0xff, 0xff];
    let mut buf = [0u8; 5];
    assert_eq!(NaiveEngine::encode(&data, &mut buf), Ok(5));
    assert_eq!(&buf, b"7777P");
}

#[test]
fn larger_buffer_keeps_its_tail() {
    let data = [0xff];
    let mut buf = [b'.'; 5];
    assert_eq!(NaiveEngine::encode(&data, &mut buf), Ok(2));
    assert_eq!(&buf, b"7H...");
}

#[test]
fn undersized_buffer_fails_after_partial_write() {
    let data = [0xff, 0xff, 0xff];
    let mut buf = [b'.'; 4];
    assert_eq!(
        NaiveEngine::encode(&data, &mut buf),
        Err(Error::InvalidOutputLength)
    );
    assert_eq!(&buf, b"7777");

    for n in 1..40usize {
        let data = vec![0xa5u8; n];
        let mut buf = vec![0u8; required_len(n) - 1];
        assert_eq!(
            NaiveEngine::encode(&data, &mut buf),
            Err(Error::InvalidOutputLength)
        );
    }
}

#[test]
fn empty_buffer_fails_on_non_empty_input() {
    let mut none: [u8; 0] = [];
    assert_eq!(
        NaiveEngine::encode(&[0x00], &mut none),
        Err(Error::InvalidOutputLength)
    );
}

#[test]
fn encoding_is_repeatable() {
    let data: Vec<u8> = (0..=255u8).collect();
    let mut a = vec![0u8; 500];
    let mut b = vec![1u8; 420];
    let ra = NaiveEngine::encode(&data, &mut a);
    let rb = NaiveEngine::encode(&data, &mut b);
    assert_eq!(ra, Ok(410));
    assert_eq!(ra, rb);
    assert_eq!(&a[..410], &b[..410]);
}

#[test]
fn no_padding_is_added() {
    for n in 0..50usize {
        let data = vec![0x5au8; n];
        let mut buf = vec![0u8; 100];
        let k = NaiveEngine::encode(&data, &mut buf).unwrap();
        assert_eq!(k, required_len(n));
        assert!(8 * n <= 5 * k && 5 * k < 8 * n + 5);
        assert!(!buf[..k].contains(&b'='));
    }
    assert_eq!(string_encode::<NaiveEngine>(&[0xff]).len(), 2);
}

#[test]
fn random_inputs_meet_length_and_alphabet() {
    let mut rng = thread_rng();
    let alphabet = b"ABCDEFGHIJKLMNOPQRSTUVWXYZ234567";
    for _ in 0..10000 {
        let n = rng.gen_range(0..=200usize);
        let data: Vec<u8> = (0..n).map(|_| rng.gen()).collect();
        let mut buf = vec![0u8; 400];
        let k = NaiveEngine::encode(&data, &mut buf).unwrap();
        assert_eq!(k, required_len(n));
        assert!(buf[..k].iter().all(|c| alphabet.contains(c)));
        assert!(buf[k..].iter().all(|c| *c == 0));
    }
}

#[test]
fn every_symbol_value_is_reachable() {
    // Bytes 0x00, 0x20, ..., each selecting one value of the first symbol.
    let alphabet = b"ABCDEFGHIJKLMNOPQRSTUVWXYZ234567";
    for v in 0..32u8 {
        let mut buf = [0u8; 2];
        assert_eq!(NaiveEngine::encode(&[v], &mut buf), Ok(2));
        assert_eq!(buf[0], alphabet[v as usize]);
        assert_eq!(buf[1], b'A');
    }
}

#[test]
fn write_u8_in_bounds() {
    let mut buf = [0u8; 3];
    assert_eq!(write_u8(&mut buf, 7, 1), Ok(2));
    assert_eq!(buf, [0, 7, 0]);
}

#[test]
fn write_u8_out_of_bounds() {
    let mut buf = [0u8; 3];
    assert_eq!(write_u8(&mut buf, 7, 3), Err(Error::InvalidOutputLength));
    assert_eq!(buf, [0, 0, 0]);
}

#[test]
fn error_names_itself() {
    assert_eq!(Error::InvalidOutputLength.to_string(), "InvalidOutputLength");
}
