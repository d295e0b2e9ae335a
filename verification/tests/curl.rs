//! End-to-end tests of the Curl engine, including the canonical 81-round
//! block-length test vector. Tryte/trit conversion is a caller-side encoding
//! concern, so small helpers for it live here rather than in the library.

use curl_sponge::Curl;
use curl_sponge::CurlError;
use curl_sponge::Mode;
use curl_sponge::Sponge;
use curl_sponge::HASH_LENGTH;

const TRYTE_ALPHABET: &str = "9ABCDEFGHIJKLMNOPQRSTUVWXYZ";

const TRYTES: &str = "RSWWSFXPQJUBJROQBRQZWZXZJWMUBVIVMHPPTYSNW9YQIQQF9RCSJJCVZG9ZWITXNCSBBDHEEKDRBHVTWCZ9SZOOZHVBPCQNPKTWFNZAWGCZ9QDIMKRVINMIRZBPKRKQAIPGOHBTHTGYXTBJLSURDSPEOJ9UKJECUKCCPVIQQHDUYKVKISCEIEGVOQWRBAYXWGSJUTEVG9RPQLPTKYCRAJ9YNCUMDVDYDQCKRJOAPXCSUDAJGETALJINHEVNAARIPONBWXUOQUFGNOCUSSLYWKOZMZUKLNITZIFXFWQAYVJCVMDTRSHORGNSTKX9Z9DLWNHZSMNOYTU9AUCGYBVIITEPEKIXBCOFCMQPBGXYJKSHPXNUKFTXIJVYRFILAVXEWTUICZCYYPCEHNTK9SLGVL9RLAMYTAEPONCBHDXSEQZOXO9XCFUCPPMKEBR9IEJGQOPPILHFXHMIULJYXZJASQEGCQDVYFOM9ETXAGVMSCHHQLFPATWOSMZIDL9AHMSDCE9UENACG9OVFAEIPPQYBCLXDMXXA9UBJFQQBCYKETPNKHNOUKCSSYLWZDLKUARXNVKKKHNRBVSTVKQCZL9RY9BDTDTPUTFUBGRMSTOTXLWUHDMSGYRDSZLIPGQXIDMNCNBOAOI9WFUCXSRLJFIVTIPIAZUK9EDUJJ9B9YCJEZQQELLHVCWDNRH9FUXDGZRGOVXGOKORTCQQA9JXNROLETYCNLRMBGXBL9DQKMOAZCBJGWLNJLGRSTYBKLGFVRUF9QOPZVQFGMDJA9TBVGFJDBAHEVOLW9GNU9NICLCQJBOAJBAHHBZJGOFUCQMBGYQLCWNKSZPPBQMSJTJLM9GXOZHTNDLGIRCSIJAZTENQVQDHFSOQM9WVNWQQJNOPZMEISSCLOADMRNWALBBSLSWNCTOSNHNLWZBVCFIOGFPCPRKQSRGKFXGTWUSCPZSKQNLQJGKDLOXSBJMEHQPDZGSENUKWAHRNONDTBLHNAKGLOMCFYRCGMDOVANPFHMQRFCZIQHCGVORJJNYMTORDKPJPLA9LWAKAWXLIFEVLKHRKCDG9QPQCPGVKIVBENQJTJGZKFTNZHIMQISVBNLHAYSSVJKTIELGTETKPVRQXNAPWOBGQGFRMMK9UQDWJHSQMYQQTCBMVQKUVGJEAGTEQDN9TCRRAZHDPSPIYVNKPGJSJZASZQBM9WXEDWGAOQPPZFLAMZLEZGXPYSOJRWL9ZH9NOJTUKXNTCRRDO9GKULXBAVDRIZBOKJYVJUSHIX9F9O9ACYCAHUKBIEPVZWVJAJGSDQNZNWLIWVSKFJUMOYDMVUFLUXT9CEQEVRFBJVPCTJQCORM9JHLYFSMUVMFDXZFNCUFZZIKREIUIHUSHRPPOUKGFKWX9COXBAZMQBBFRFIBGEAVKBWKNTBMLPHLOUYOXPIQIZQWGOVUWQABTJT9ZZPNBABQFYRCQLXDHDEX9PULVTCQLWPTJLRSVZQEEYVBVY9KCNEZXQLEGADSTJBYOXEVGVTUFKNCNWMEDKDUMTKCMRPGKDCCBDHDVVSMPOPUBZOMZTXJSQNVVGXNPPBVSBL9WWXWQNMHRMQFEQYKWNCSW9URI9FYPT9UZMAFMMGUKFYTWPCQKVJ9DIHRJFMXRZUGI9TMTFUQHGXNBITDSORZORQIAMKY9VRYKLEHNRNFSEFBHF9KXIQAEZEJNQOENJVMWLMHI9GNZPXYUIFAJIVCLAGKUZIKTJKGNQVTXJORWIQDHUPBBPPYOUPFAABBVMMYATXERQHPECDVYGWDGXFJKOMOBXKRZD9MCQ9LGDGGGMYGUAFGMQTUHZOAPLKPNPCIKUNEMQIZOCM9COAOMZSJ9GVWZBZYXMCNALENZ9PRYMHENPWGKX9ULUIGJUJRKFJPBTTHCRZQKEAHT9DC9GSWQEGDTZFHACZMLFYDVOWZADBNMEM9XXEOMHCNJMDSUAJRQTBUWKJF9RZHK9ACGUNI9URFIHLXBXCEODONPXBSCWP9WNAEYNALKQHGULUQGAFL9LB9NBLLCACLQFGQMXRHGBTMI9YKAJKVELRWWKJAPKMSYMJTDYMZ9PJEEYIRXRMMFLRSFSHIXUL9NEJABLRUGHJFL9RASMSKOI9VCFRZ9GWTMODUUESIJBHWWHZYCLDENBFSJQPIOYC9MBGOOXSWEMLVU9L9WJXKZKVDBDMFSVHHISSSNILUMWULMVMESQUIHDGBDXROXGH9MTNFSLWJZRAPOKKRGXAAQBFPYPAAXLSTMNSNDTTJQSDQORNJS9BBGQ9KQJZYPAQ9JYQZJ9B9KQDAXUACZWRUNGMBOQLQZUHFNCKVQGORRZGAHES9PWJUKZWUJSBMNZFILBNBQQKLXITCTQDDBV9UDAOQOUPWMXTXWFWVMCXIXLRMRWMAYYQJPCEAAOFEOGZQMEDAGYGCTKUJBS9AGEXJAFHWWDZRYEN9DN9HVCMLFURISLYSWKXHJKXMHUWZXUQARMYPGKRKQMHVR9JEYXJRPNZINYNCGZHHUNHBAIJHLYZIZGGIDFWVNXZQADLEDJFTIUTQWCQSX9QNGUZXGXJYUUTFSZPQKXBA9DFRQRLTLUJENKESDGTZRGRSLTNYTITXRXRGVLWBTEWPJXZYLGHLQBAVYVOSABIVTQYQM9FIQKCBRRUEMVVTMERLWOK";
const HASH: &str = "TIXEPIEYMGURTQ9ABVYVQSWMNGCVQFASMFAEQWUZCLIWLCDIGYVXOEJBBEMZOIHAYSUQMEFOGZBXUMHQW";

/// Decode one tryte character into its three balanced-ternary digits.
fn trits_from_char(c: char) -> [i8; 3] {
    let idx = TRYTE_ALPHABET.find(c).expect("invalid tryte character") as i64;
    let mut v = if idx > 13 { idx - 27 } else { idx };
    let mut out = [0i8; 3];
    for t in out.iter_mut() {
        let r = ((v % 3) + 3) % 3;
        let digit = if r == 2 { -1 } else { r };
        *t = digit as i8;
        v = (v - digit) / 3;
    }
    out
}

fn trits_from_string(trytes: &str) -> Vec<i8> {
    let mut out = Vec::with_capacity(trytes.len() * 3);
    for c in trytes.chars() {
        out.extend_from_slice(&trits_from_char(c));
    }
    out
}

/// Encode trits (length a multiple of 3) back into tryte characters.
fn trytes(trits: &[i8]) -> String {
    assert_eq!(trits.len() % 3, 0);
    let alphabet: Vec<char> = TRYTE_ALPHABET.chars().collect();
    let mut out = String::new();
    for group in trits.chunks(3) {
        let v = group[0] as i64 + 3 * group[1] as i64 + 9 * group[2] as i64;
        let idx = if v < 0 { v + 27 } else { v };
        out.push(alphabet[idx as usize]);
    }
    out
}

/// A deterministic non-trivial trit pattern of the given length.
fn pattern(len: usize) -> Vec<i8> {
    (0..len).map(|i| (i % 3) as i8 - 1).collect()
}

#[test]
fn test_curl_works() {
    let size = 8019;
    let in_trits = trits_from_string(TRYTES);
    let mut curl = Curl::default();
    curl.absorb(&in_trits[0..size]);
    let hash_trits = curl.squeeze(HASH_LENGTH);
    let out_trytes = trytes(&hash_trits);
    assert_eq!(HASH, out_trytes);
}

#[test]
fn determinism_across_fresh_instances() {
    let input = pattern(2 * HASH_LENGTH);
    let mut first = Curl::new(Mode::CURLP81).unwrap();
    let mut second = Curl::new(Mode::CURLP81).unwrap();
    first.absorb(&input);
    second.absorb(&input);
    assert_eq!(first.squeeze(HASH_LENGTH), second.squeeze(HASH_LENGTH));
}

#[test]
fn reset_restores_fresh_state() {
    let mut used = Curl::new(Mode::CURLP27).unwrap();
    used.absorb(&pattern(HASH_LENGTH));
    let _ = used.squeeze(HASH_LENGTH);
    used.reset();
    let fresh = Curl::new(Mode::CURLP27).unwrap();
    assert_eq!(used.state(), fresh.state());
}

#[test]
fn reset_engine_hashes_like_a_fresh_one() {
    let input = pattern(HASH_LENGTH);
    let mut used = Curl::default();
    used.absorb(&input);
    let _ = used.squeeze(2 * HASH_LENGTH);
    used.reset();
    used.absorb(&input);
    let mut fresh = Curl::default();
    fresh.absorb(&input);
    assert_eq!(used.squeeze(HASH_LENGTH), fresh.squeeze(HASH_LENGTH));
}

#[test]
fn invalid_mode_is_rejected() {
    match Curl::new(Mode::KERL) {
        Ok(_) => panic!("an unsupported mode must not construct an engine"),
        Err(e) => assert_eq!(e, CurlError::InvalidMode(Mode::KERL)),
    }
}

#[test]
fn supported_modes_are_accepted() {
    assert!(Curl::new(Mode::CURLP27).is_ok());
    assert!(Curl::new(Mode::CURLP81).is_ok());
}

#[test]
fn squeeze_two_blocks_is_not_an_echo() {
    let mut curl = Curl::default();
    curl.absorb(&pattern(HASH_LENGTH));
    let out = curl.squeeze(2 * HASH_LENGTH);
    assert_eq!(out.len(), 2 * HASH_LENGTH);
    assert_ne!(out[0..HASH_LENGTH], out[HASH_LENGTH..2 * HASH_LENGTH]);
}

#[test]
fn absorb_chaining_matches_single_call() {
    let first = pattern(HASH_LENGTH);
    let second: Vec<i8> = pattern(HASH_LENGTH).iter().map(|t| -t).collect();
    let mut chained = Curl::default();
    chained.absorb(&first);
    chained.absorb(&second);
    let mut joined = Curl::default();
    let mut both = first.clone();
    both.extend_from_slice(&second);
    joined.absorb(&both);
    assert_eq!(chained.squeeze(HASH_LENGTH), joined.squeeze(HASH_LENGTH));
}

#[test]
fn fresh_engine_squeezes_the_zero_block() {
    let mut curl = Curl::default();
    assert_eq!(curl.squeeze(HASH_LENGTH), vec![0i8; HASH_LENGTH]);
    let mut partial = Curl::default();
    assert_eq!(partial.squeeze(100), vec![0i8; 100]);
}

#[test]
fn partial_squeeze_is_a_prefix_of_the_full_block() {
    let mut full = Curl::default();
    full.absorb(&pattern(HASH_LENGTH));
    let mut short = Curl::default();
    short.absorb(&pattern(HASH_LENGTH));
    let block = full.squeeze(HASH_LENGTH);
    let prefix = short.squeeze(100);
    assert_eq!(prefix[..], block[0..100]);
}

#[test]
fn modes_mix_differently() {
    let input = pattern(HASH_LENGTH);
    let mut light = Curl::new(Mode::CURLP27).unwrap();
    let mut heavy = Curl::new(Mode::CURLP81).unwrap();
    light.absorb(&input);
    heavy.absorb(&input);
    assert_ne!(light.squeeze(HASH_LENGTH), heavy.squeeze(HASH_LENGTH));
}

#[test]
fn state_mut_writes_reach_the_state() {
    let mut curl = Curl::default();
    curl.state_mut()[0] = 1;
    assert_eq!(curl.state()[0], 1);
    assert_eq!(curl.state()[1], 0);
}
