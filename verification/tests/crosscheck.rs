use serde_json::Value;
use wpengine::json::{Json, JsonMap, JsonNum};
use wpengine::text::{
    i64_to_text, is_whitespace, text_lt, to_ascii_lowercase, trim, u64_to_text,
};
use wpengine::texts::sort_texts;

/// A small deterministic generator.
struct Gen(u64);

impl Gen {
    fn next(&mut self) -> u64 {
        self.0 = self.0.wrapping_mul(6364136223846793005).wrapping_add(1442695040888963407);
        self.0 >> 33
    }

    fn pick<'a>(&mut self, xs: &'a [&'a str]) -> &'a str {
        xs[(self.next() as usize) % xs.len()]
    }

    fn text(&mut self) -> String {
        let parts = ["a", "B", " ", "\t", "\u{A0}", "é", "\"", "\\", "\n", "\u{1}", "z", "0", "\u{3000}", "ß", "\u{7f}"];
        let n = (self.next() % 6) as usize;
        (0..n).map(|_| self.pick(&parts)).collect()
    }

    fn json(&mut self, depth: u32) -> (Json, Value) {
        let kind = if depth == 0 { self.next() % 5 } else { self.next() % 7 };
        match kind {
            0 => (Json::Null, Value::Null),
            1 => {
                let b = self.next() % 2 == 0;
                (Json::Bool(b), Value::Bool(b))
            }
            2 => {
                let n = self.next() * 1000003;
                (Json::Number(JsonNum::PosInt(n)), Value::from(n))
            }
            3 => {
                let n = -((self.next() % 100000) as i64) - 1;
                (Json::Number(JsonNum::NegInt(n)), Value::from(n))
            }
            4 => {
                let t = self.text();
                (Json::Str(t.clone()), Value::String(t))
            }
            5 => {
                let n = self.next() % 4;
                let mut a = Vec::new();
                let mut b = Vec::new();
                for _ in 0..n {
                    let (x, y) = self.json(depth - 1);
                    a.push(x);
                    b.push(y);
                }
                (Json::Array(a), Value::Array(b))
            }
            _ => {
                let n = self.next() % 5;
                let mut m = JsonMap::new();
                let mut v = serde_json::Map::new();
                for _ in 0..n {
                    let k = self.text();
                    let (x, y) = self.json(depth - 1);
                    m.insert(k.clone(), x);
                    v.insert(k, y);
                }
                (Json::Object(m), Value::Object(v))
            }
        }
    }
}

#[test]
fn compact_text_matches_serde_json() {
    let mut g = Gen(7);
    for _ in 0..3000 {
        let (j, v) = g.json(3);
        assert_eq!(j.to_text(), v.to_string());
    }
    let f: Value = serde_json::from_str("[0.5,1e300,-2.25]").unwrap();
    let j = Json::Array(
        f.as_array()
            .unwrap()
            .iter()
            .map(|x| Json::Number(JsonNum::Float(x.to_string())))
            .collect(),
    );
    assert_eq!(j.to_text(), f.to_string());
}

#[test]
fn object_key_order_matches_serde_json() {
    let mut g = Gen(11);
    for _ in 0..500 {
        let mut m = JsonMap::new();
        let mut v = serde_json::Map::new();
        for _ in 0..(g.next() % 12) {
            let k = g.text();
            if g.next() % 4 == 0 {
                m.remove(&k);
                v.remove(&k);
            } else {
                let n = g.next();
                m.insert(k.clone(), Json::Number(JsonNum::PosInt(n)));
                v.insert(k, Value::from(n));
            }
        }
        assert_eq!(m.len(), v.len());
        let keys: Vec<String> = (0..m.len()).map(|i| m.entry(i).0.clone()).collect();
        let expected: Vec<String> = v.keys().cloned().collect();
        assert_eq!(keys, expected);
    }
}

#[test]
fn text_helpers_match_std() {
    let mut g = Gen(3);
    for _ in 0..3000 {
        let a = g.text();
        let b = g.text();
        assert_eq!(trim(&a), a.trim());
        assert_eq!(to_ascii_lowercase(&a), a.to_ascii_lowercase());
        assert_eq!(text_lt(&a, &b), a < b);
    }
    for c in ['\u{0}', ' ', '\u{85}', '\u{1680}', '\u{180E}', '\u{200B}', '\u{2028}', 'x', '\u{FEFF}'] {
        assert_eq!(is_whitespace(c), c.is_whitespace(), "{c:?}");
    }
    for n in [0u64, 9, 10, 1234567890, u64::MAX] {
        assert_eq!(u64_to_text(n), n.to_string());
    }
    for n in [0i64, -1, 42, i64::MIN, i64::MAX] {
        assert_eq!(i64_to_text(n), n.to_string());
    }
}

#[test]
fn sorting_matches_std() {
    let mut g = Gen(5);
    for _ in 0..300 {
        let v: Vec<String> = (0..(g.next() % 9)).map(|_| g.text()).collect();
        let mut expected = v.clone();
        expected.sort();
        assert_eq!(sort_texts(v), expected);
    }
}
