use iota_conversion::alphabet::digit_of_symbol;
use iota_conversion::symbol_table::{char_of, ordinal_of};
use iota_conversion::{to_string, to_trytes, TryteConverterError};
use rand::distributions::Alphanumeric;
use rand::Rng;

const PRINTABLE: &str = " !\"#$%&'()*+,-./0123456789:;<=>?@ABCDEFGHIJKLMNOPQRSTUVWXYZ[\\]^_`abcdefghijklmnopqrstuvwxyz{|}~";
const PRINTABLE_TRYTES: &str = "EAFAGAHAIAJAKALAMANAOAPAQARASATAUAVAWAXAYAZA9BABBBCBDBEBFBGBHBIBJBKBLBMBNBOBPBQBRBSBTBUBVBWBXBYBZB9CACBCCCDCECFCGCHCICJCKCLCMCNCOCPCQCRCSCTCUCVCWCXCYCZC9DADBDCDDDEDFDGDHDIDJDKDLDMDNDODPDQDRD";

#[test]
fn should_convert_string_to_trytes() {
    assert_eq!(to_trytes("Z").unwrap(), "IC");
    assert_eq!(to_trytes("\n").unwrap(), "J9");
    assert_eq!(to_trytes("JOTA JOTA").unwrap(), "TBYBCCKBEATBYBCCKB");
    assert_eq!(to_trytes(" !\"#$%&'()*+,-./0123456789:;<=>?@ABCDEFGHIJKLMNOPQRSTUVWXYZ[\\]^_`abcdefghijklmnopqrstuvwxyz{|}~").unwrap(), "EAFAGAHAIAJAKALAMANAOAPAQARASATAUAVAWAXAYAZA9BABBBCBDBEBFBGBHBIBJBKBLBMBNBOBPBQBRBSBTBUBVBWBXBYBZB9CACBCCCDCECFCGCHCICJCKCLCMCNCOCPCQCRCSCTCUCVCWCXCYCZC9DADBDCDDDEDFDGDHDIDJDKDLDMDNDODPDQDRD");
}

#[test]
fn should_convert_trytes_to_string() {
    assert_eq!(to_string("IC").unwrap(), "Z");
    assert_eq!(to_string("J9").unwrap(), "\n");
    assert_eq!(to_string("TBYBCCKBEATBYBCCKB").unwrap(), "JOTA JOTA");
    assert_eq!(to_string("TBYBCCKBEATBYBCCKB9").unwrap(), "JOTA JOTA");
    assert_eq!(to_string("EAFAGAHAIAJAKALAMANAOAPAQARASATAUAVAWAXAYAZA9BABBBCBDBEBFBGBHBIBJBKBLBMBNBOBPBQBRBSBTBUBVBWBXBYBZB9CACBCCCDCECFCGCHCICJCKCLCMCNCOCPCQCRCSCTCUCVCWCXCYCZC9DADBDCDDDEDFDGDHDIDJDKDLDMDNDODPDQDRD").unwrap(), " !\"#$%&'()*+,-./0123456789:;<=>?@ABCDEFGHIJKLMNOPQRSTUVWXYZ[\\]^_`abcdefghijklmnopqrstuvwxyz{|}~");
}

#[test]
fn should_convert_back_and_forth() {
    let s: String = rand::thread_rng()
        .sample_iter(&Alphanumeric)
        .take(1000)
        .collect();
    let trytes = to_trytes(&s).unwrap();
    let back = to_string(&trytes).unwrap();
    assert_eq!(s, back);
}

#[test]
fn round_trip_of_every_supported_character() {
    let text = format!("{}\n{}\n", PRINTABLE, "Hello, World!");
    let trytes = to_trytes(&text).unwrap();
    assert_eq!(to_string(&trytes).unwrap(), text);
}

#[test]
fn trytes_are_twice_as_long_as_the_text() {
    assert_eq!(to_trytes("").unwrap(), "");
    assert_eq!(to_trytes("a\nb").unwrap().chars().count(), 6);
    assert_eq!(to_trytes(PRINTABLE).unwrap().len(), 2 * PRINTABLE.len());
    assert_eq!(to_trytes("~").unwrap(), "RD");
    assert_eq!(to_trytes(" ").unwrap(), "EA");
}

#[test]
fn unsupported_character_is_not_encodable() {
    for input in ["\t", "ab\rc", "caf\u{e9}", "\u{7f}", "\u{1F600}"] {
        match to_trytes(input) {
            Err(TryteConverterError::NotEncodable { string }) => assert_eq!(string, input),
            other => panic!("unexpected result for {:?}: {:?}", input, other),
        }
    }
}

#[test]
fn symbol_outside_alphabet_is_not_trytes() {
    for input in ["ic", "I1", "TBYB!CKB", "A\u{e9}", "ZZZ a"] {
        match to_string(input) {
            Err(TryteConverterError::NotTrytes { string }) => assert_eq!(string, input),
            other => panic!("unexpected result for {:?}: {:?}", input, other),
        }
    }
}

#[test]
fn trailing_odd_symbol_is_ignored() {
    assert_eq!(to_string("").unwrap(), "");
    assert_eq!(to_string("A").unwrap(), "");
    assert_eq!(to_string("IC9").unwrap(), to_string("IC").unwrap());
    assert_eq!(to_string("ICZ").unwrap(), "Z");
    assert_eq!(to_string("IC!").unwrap(), "Z");
    assert_eq!(to_string("TBYBCCKBEATBYBCCKBQ").unwrap(), "JOTA JOTA");
}

#[test]
fn pairs_without_a_character_are_skipped() {
    assert_eq!(to_string("99").unwrap(), "");
    assert_eq!(to_string("ZZ").unwrap(), "");
    assert_eq!(to_string("9AIC").unwrap(), "Z");
    assert_eq!(to_string("ICA9IC").unwrap(), "ZZ");
    assert_eq!(to_string("SDIC").unwrap(), "Z");
}

#[test]
fn encoding_every_printable_character() {
    assert_eq!(to_trytes(PRINTABLE).unwrap(), PRINTABLE_TRYTES);
    assert_eq!(to_string(PRINTABLE_TRYTES).unwrap(), PRINTABLE);
}

#[test]
fn symbol_table_lookups() {
    assert_eq!(ordinal_of('\n'), Some(10));
    assert_eq!(ordinal_of(' '), Some(32));
    assert_eq!(ordinal_of('~'), Some(126));
    assert_eq!(ordinal_of('\t'), None);
    assert_eq!(char_of(10), Some('\n'));
    assert_eq!(char_of(90), Some('Z'));
    assert_eq!(char_of(11), None);
    assert_eq!(char_of(127), None);
    assert_eq!(char_of(0), None);
}

#[test]
fn alphabet_digits() {
    assert_eq!(digit_of_symbol('9'), Some(0));
    assert_eq!(digit_of_symbol('A'), Some(1));
    assert_eq!(digit_of_symbol('Z'), Some(26));
    assert_eq!(digit_of_symbol('a'), None);
}
