use arbitrary::Unstructured;
use morse_toolkit::symbols::{FromMorseIterator, IntoMorseIterator, MorseSymbol};
use rand::{thread_rng, Rng};

fn bits_of(text: &str) -> Vec<bool> {
    text.bytes().map(|b| b != b'0').collect()
}

fn decode(text: &str) -> Vec<MorseSymbol> {
    bits_of(text).into_morse().collect()
}

fn encode(symbols: &[MorseSymbol]) -> Vec<bool> {
    symbols.to_vec().from_morse().collect()
}

#[test]
fn arbitrary_valid_morse() {
    let mut rng = thread_rng();
    let noise: Vec<u8> = (0..u16::MAX).map(|_| rng.gen()).collect();
    let mut noise = Unstructured::new(&noise);
    let choices = [
        MorseSymbol::WordBoundary,
        MorseSymbol::CharacterBoundary,
        MorseSymbol::Dit,
        MorseSymbol::Dah,
    ];

    let mut morse: Vec<MorseSymbol> = (0..rng.gen_range(10..20))
        .flat_map(|_| noise.choose(&choices).map(|s| *s))
        .fold(vec![], |mut acc, el| {
            if acc.is_empty() || (&acc[acc.len() - 1]).into() || (&el).into() {
                acc.push(el);
            }
            acc
        });
    while !morse.is_empty() && !bool::from(&morse[morse.len() - 1]) {
        morse.pop();
    }
    println!("{:?}", morse);
    let bits: Vec<bool> = morse.clone().from_morse().collect();
    let converted_morse: Vec<MorseSymbol> = bits.into_morse().collect();
    println!("{:?}", converted_morse);
    assert_eq!(morse, converted_morse);
}

#[test]
fn sos_into() {
    let sos = b"101010001110111011100010101";

    let bits: Vec<bool> = sos.iter().map(|v| *v != b'0').collect();
    let morse: Vec<MorseSymbol> = bits.into_morse().collect();

    assert_eq!(
        morse,
        [
            MorseSymbol::Dit,
            MorseSymbol::Dit,
            MorseSymbol::Dit,
            MorseSymbol::CharacterBoundary,
            MorseSymbol::Dah,
            MorseSymbol::Dah,
            MorseSymbol::Dah,
            MorseSymbol::CharacterBoundary,
            MorseSymbol::Dit,
            MorseSymbol::Dit,
            MorseSymbol::Dit,
        ]
    );
}

#[test]
fn symbol_projections() {
    assert!(bool::from(&MorseSymbol::Dit));
    assert!(bool::from(&MorseSymbol::Dah));
    assert!(!bool::from(&MorseSymbol::CharacterBoundary));
    assert!(!bool::from(&MorseSymbol::WordBoundary));
    assert_eq!(u8::from(&MorseSymbol::Dit), 1);
    assert_eq!(u8::from(&MorseSymbol::Dah), 3);
    assert_eq!(u8::from(&MorseSymbol::CharacterBoundary), 3);
    assert_eq!(u8::from(&MorseSymbol::WordBoundary), 7);
}

#[test]
fn pulse_thresholds() {
    assert_eq!(decode("1"), [MorseSymbol::Dit]);
    assert_eq!(decode("11"), [MorseSymbol::Dit]);
    assert_eq!(decode("111"), [MorseSymbol::Dah]);
    assert_eq!(decode("1111111"), [MorseSymbol::Dah]);
}

#[test]
fn gap_thresholds() {
    let cb = [MorseSymbol::Dit, MorseSymbol::CharacterBoundary, MorseSymbol::Dit];
    let wb = [MorseSymbol::Dit, MorseSymbol::WordBoundary, MorseSymbol::Dit];
    assert_eq!(decode("101"), [MorseSymbol::Dit, MorseSymbol::Dit]);
    assert_eq!(decode("1001"), cb);
    assert_eq!(decode("10001"), cb);
    assert_eq!(decode("100001"), cb);
    assert_eq!(decode("1000001"), wb);
    assert_eq!(decode("10000000001"), wb);
}

#[test]
fn edges_of_stream() {
    assert_eq!(decode(""), []);
    assert_eq!(decode("0"), []);
    assert_eq!(decode("00"), [MorseSymbol::CharacterBoundary]);
    assert_eq!(decode("0000011"), [MorseSymbol::WordBoundary, MorseSymbol::Dit]);
    assert_eq!(decode("1110"), [MorseSymbol::Dah]);
    assert_eq!(decode("11100"), [MorseSymbol::Dah, MorseSymbol::CharacterBoundary]);
}

#[test]
fn decoder_step_by_step() {
    let mut it = bits_of("1011100000001").into_morse();
    assert_eq!(it.next(), Some(MorseSymbol::Dit));
    assert_eq!(it.next(), Some(MorseSymbol::Dah));
    assert_eq!(it.next(), Some(MorseSymbol::WordBoundary));
    assert_eq!(it.next(), Some(MorseSymbol::Dit));
    assert_eq!(it.next(), None);
    assert_eq!(it.next(), None);
}

#[test]
fn encoder_separates_adjacent_pulses() {
    assert_eq!(
        encode(&[MorseSymbol::Dit, MorseSymbol::Dah]),
        [true, false, true, true, true]
    );
}

#[test]
fn encoder_durations() {
    assert_eq!(encode(&[]), Vec::<bool>::new());
    assert_eq!(encode(&[MorseSymbol::Dit]), [true]);
    assert_eq!(encode(&[MorseSymbol::Dah]), [true, true, true]);
    assert_eq!(encode(&[MorseSymbol::CharacterBoundary]), [false; 3]);
    assert_eq!(encode(&[MorseSymbol::WordBoundary]), [false; 7]);
    assert_eq!(
        encode(&[
            MorseSymbol::Dah,
            MorseSymbol::CharacterBoundary,
            MorseSymbol::Dit,
            MorseSymbol::Dit
        ]),
        [true, true, true, false, false, false, true, false, true]
    );
}

#[test]
fn encoder_step_by_step() {
    let mut it = vec![MorseSymbol::Dit, MorseSymbol::Dit].from_morse();
    assert_eq!(it.next(), Some(true));
    assert_eq!(it.next(), Some(false));
    assert_eq!(it.next(), Some(true));
    assert_eq!(it.next(), None);
}

#[test]
fn reencoding_keeps_decoding() {
    for text in ["101010001110111011100010101", "0010110000000111", "1101001", "000"] {
        let once = decode(text);
        let again: Vec<MorseSymbol> = encode(&once).into_morse().collect();
        assert_eq!(again, once);
    }
}

#[test]
fn dotted_text() {
    assert_eq!(
        MorseSymbol::from_dots_and_dashes(".-. x-"),
        [
            MorseSymbol::Dit,
            MorseSymbol::Dah,
            MorseSymbol::Dit,
            MorseSymbol::CharacterBoundary,
            MorseSymbol::Dah,
            MorseSymbol::CharacterBoundary,
        ]
    );
    assert_eq!(
        MorseSymbol::from_dots_and_dashes(". -"),
        [
            MorseSymbol::Dit,
            MorseSymbol::CharacterBoundary,
            MorseSymbol::Dah,
            MorseSymbol::CharacterBoundary,
        ]
    );
    assert_eq!(
        MorseSymbol::from_dots_and_dashes(".  -"),
        [
            MorseSymbol::Dit,
            MorseSymbol::CharacterBoundary,
            MorseSymbol::WordBoundary,
            MorseSymbol::Dah,
            MorseSymbol::CharacterBoundary,
        ]
    );
    assert_eq!(
        MorseSymbol::from_dots_and_dashes(""),
        [MorseSymbol::WordBoundary]
    );
    assert_eq!(
        MorseSymbol::from_dots_and_dashes("?"),
        [MorseSymbol::CharacterBoundary]
    );
}
