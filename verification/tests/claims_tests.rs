use dis::anonymous_token::TokenGenerator;
use dis::error::AuthError;
use dis::token_format::{claims_from_json, claims_to_json, JwtClaims};
use hmac::{Hmac, Mac};
use sha2::Sha256;

const HEADER: &str = "eyJhbGciOiJIUzI1NiIsInR5cCI6IkpXVCJ9";

fn signed(key: &[u8], payload_json: &[u8]) -> String {
    let payload = base64::encode_config(payload_json, base64::URL_SAFE_NO_PAD);
    let message = format!("{}.{}", HEADER, payload);
    let mut mac = <Hmac<Sha256> as Mac>::new_from_slice(key).unwrap();
    mac.update(message.as_bytes());
    let sig = base64::encode_config(mac.finalize().into_bytes(), base64::URL_SAFE_NO_PAD);
    format!("{}.{}", message, sig)
}

fn read(json: &[u8]) -> Option<(Vec<u8>, i64, i64, Vec<u8>)> {
    claims_from_json(json).map(|c| (c.sub, c.iat, c.exp, c.jti))
}

fn claims(sub: &str, iat: i64, exp: i64, jti: &str) -> Option<(Vec<u8>, i64, i64, Vec<u8>)> {
    Some((sub.as_bytes().to_vec(), iat, exp, jti.as_bytes().to_vec()))
}

#[test]
fn token_with_other_json_layout_verifies() {
    let g = TokenGenerator::new("s").unwrap();
    let token = signed(b"s", br#" { "jti" : "y", "exp": 2, "extra": [1, {"a": null}], "sub": "x", "iat": 1 } "#);
    assert_eq!(g.verify_at(&token, 0).unwrap(), "x");
    assert_eq!(g.verify_at(&token, 3), Err(AuthError::TokenExpired));
    let json = claims_to_json(&JwtClaims { sub: vec![0xff], iat: 0, exp: 10, jti: b"t".to_vec() });
    assert_eq!(g.verify_at(&signed(b"s", &json), 0), Err(AuthError::PayloadFormat));
    assert_eq!(g.verify_at(&signed(b"s", br#"{"sub":"x","iat":1}"#), 0), Err(AuthError::PayloadFormat));
}

#[test]
fn claims_json_accepts_what_serde_json_accepts() {
    assert_eq!(read(br#"{"sub":"u","iat":1,"exp":2,"jti":"j"}"#), claims("u", 1, 2, "j"));
    assert_eq!(read(b" \n{ \"sub\" : \"u\" ,\t\"iat\":1,\"exp\":2,\"jti\":\"j\"}\r\n"), claims("u", 1, 2, "j"));
    assert_eq!(read(br#"{"jti":"j","exp":2,"sub":"u","iat":1}"#), claims("u", 1, 2, "j"));
    assert_eq!(
        read(br#"{"sub":"u","x":[1,-2.5e+3,{"a":[null,true,false]},"\u12aB\"",{}],"iat":1,"y":{},"exp":2,"jti":"j"}"#),
        claims("u", 1, 2, "j")
    );
    assert_eq!(
        read(br#"{"sub":"\u00e9\/\ud83d\ude00\n","iat":0,"exp":-5,"jti":"\u00E9"}"#),
        claims("\u{e9}/\u{1f600}\n", 0, -5, "\u{e9}")
    );
    assert_eq!(read(br#"["u", 1, 2, "j"]"#), claims("u", 1, 2, "j"));
    assert_eq!(read(b"{\"sub\":\"\xc3\xa9\",\"z\":\"\xff\",\"iat\":1,\"exp\":2,\"jti\":\"j\"}"), claims("\u{e9}", 1, 2, "j"));
    assert_eq!(
        read(br#"{"sub":"u","iat":-9223372036854775808,"exp":9223372036854775807,"jti":"j"}"#),
        claims("u", i64::MIN, i64::MAX, "j")
    );
}

#[test]
fn claims_json_rejects_what_serde_json_rejects() {
    let bad: Vec<&[u8]> = vec![
        br#"{"sub":"u","iat":01,"exp":2,"jti":"j"}"#,
        br#"{"sub":"u","iat":-0,"exp":2,"jti":"j"}"#,
        br#"{"sub":"u","iat":1.0,"exp":2,"jti":"j"}"#,
        br#"{"sub":"u","iat":1e3,"exp":2,"jti":"j"}"#,
        br#"{"sub":"u","iat":9223372036854775808,"exp":2,"jti":"j"}"#,
        br#"{"sub":"u","iat":-9223372036854775809,"exp":2,"jti":"j"}"#,
        br#"{"sub":"u","iat":"1","exp":2,"jti":"j"}"#,
        br#"{"sub":1,"iat":1,"exp":2,"jti":"j"}"#,
        br#"{"sub":"u","iat":1,"exp":2,"jti":"j"} x"#,
        br#"{"sub":"u","iat":1,"exp":2,"jti":"j",}"#,
        br#"{"sub":"u","sub":"v","iat":1,"exp":2,"jti":"j"}"#,
        br#"{"sub":"u","iat":1,"exp":2}"#,
        br#"{"sub":"\ud800","iat":1,"exp":2,"jti":"j"}"#,
        br#"{"sub":"\udc00","iat":1,"exp":2,"jti":"j"}"#,
        br#"{"sub":"\ud800\u0041","iat":1,"exp":2,"jti":"j"}"#,
        br#"{"sub":"\x","iat":1,"exp":2,"jti":"j"}"#,
        br#"{"sub":"u","a":tru,"iat":1,"exp":2,"jti":"j"}"#,
        br#"{"sub":"u","a":[1,],"iat":1,"exp":2,"jti":"j"}"#,
        br#"{sub:"u","iat":1,"exp":2,"jti":"j"}"#,
        br#"["u",1,2,"j",5]"#,
        br#"["u",1,2]"#,
        b"{\"sub\":\"\xff\",\"iat\":1,\"exp\":2,\"jti\":\"j\"}",
        b"{\"sub\":\"a\x01\",\"iat\":1,\"exp\":2,\"jti\":\"j\"}",
        b"",
        b"null",
    ];
    for text in bad {
        assert_eq!(read(text), None, "{:?}", String::from_utf8_lossy(text));
    }
}

#[test]
fn claims_json_agrees_with_serde_json_on_arrays() {
    let texts: Vec<&[u8]> = vec![
        br#"["u",1,2,"j"]"#,
        br#" [ "\u00e9" , -3 , 4 , "\ud83d\ude00" ] "#,
        br#"["u",01,2,"j"]"#,
        br#"["u",1.5,2,"j"]"#,
        br#"["u",1,2,"j",3]"#,
        br#"["\ud800",1,2,"j"]"#,
        br#"["u",-0,2,"j"]"#,
    ];
    for text in texts {
        let ours = read(text);
        let theirs = serde_json::from_slice::<(String, i64, i64, String)>(text)
            .ok()
            .map(|(s, a, b, t)| (s.into_bytes(), a, b, t.into_bytes()));
        assert_eq!(ours, theirs, "{:?}", String::from_utf8_lossy(text));
    }
}
