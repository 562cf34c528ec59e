use assay::operation::{absorb_into, header_names_of, key_text, operation_digest, sort_positions, LuaValue};
use sha2::Digest;

fn s(text: &str) -> LuaValue {
    LuaValue::Str(text.as_bytes().to_vec())
}

fn render(v: &LuaValue) -> String {
    let mut out = Vec::new();
    absorb_into(v, 0, &mut out);
    String::from_utf8(out).unwrap()
}

fn sha256_hex(bytes: &[u8]) -> String {
    sha2::Sha256::digest(bytes).iter().map(|b| format!("{b:02x}")).collect()
}

#[test]
fn scalars_render_as_their_text() {
    assert_eq!(render(&LuaValue::Nil), "nil");
    assert_eq!(render(&LuaValue::Boolean(true)), "true");
    assert_eq!(render(&LuaValue::Integer(-42)), "-42");
    assert_eq!(render(&LuaValue::Number("1.5".to_string())), "1.5");
    assert_eq!(render(&s("hello")), "hello");
    assert_eq!(render(&LuaValue::Other("function".to_string())), "function");
}

#[test]
fn table_entries_render_in_key_order() {
    let t = LuaValue::Table(vec![
        (s("url"), s("https://x")),
        (LuaValue::Integer(2), LuaValue::Boolean(false)),
        (s("body"), LuaValue::Table(vec![(s("k"), s("v"))])),
    ]);
    assert_eq!(render(&t), "{2=false;body={k=v;};url=https://x;}");
}

#[test]
fn walking_order_does_not_change_the_digest() {
    let a = LuaValue::Table(vec![(s("a"), LuaValue::Integer(1)), (s("b"), LuaValue::Integer(2))]);
    let b = LuaValue::Table(vec![(s("b"), LuaValue::Integer(2)), (s("a"), LuaValue::Integer(1))]);
    assert_eq!(
        operation_digest("http.post", &[s("https://x"), a]),
        operation_digest("http.post", &[s("https://x"), b])
    );
}

#[test]
fn the_digest_is_sha256_of_the_name_and_the_rendered_arguments() {
    let args = [s("a.txt"), LuaValue::Table(vec![(s("mode"), s("w"))])];
    assert_eq!(
        operation_digest("fs.write", &args),
        sha256_hex(b"fs.write\0a.txt\0{mode=w;}")
    );
    assert_eq!(operation_digest("env.set", &[]), sha256_hex(b"env.set"));
}

#[test]
fn changed_arguments_change_the_digest() {
    assert_ne!(
        operation_digest("fs.remove", &[s("/tmp/a")]),
        operation_digest("fs.remove", &[s("/tmp/b")])
    );
}

#[test]
fn nesting_past_sixteen_levels_renders_as_deep() {
    let mut v = LuaValue::Nil;
    for _ in 0..18 {
        v = LuaValue::Table(vec![(s("x"), v)]);
    }
    let text = render(&v);
    assert_eq!(text.matches("deep").count(), 1);
    assert!(text.starts_with("{x={x="));
    assert!(!text.contains("nil"));
}

#[test]
fn keys_are_written_as_lua_writes_them() {
    assert_eq!(key_text(&s("name")), "name");
    assert_eq!(key_text(&LuaValue::Str(vec![0xff, 0xfe])), "");
    assert_eq!(key_text(&LuaValue::Integer(7)), "7");
    assert_eq!(key_text(&LuaValue::Boolean(false)), "false");
    assert_eq!(key_text(&LuaValue::Table(vec![])), "table");
}

#[test]
fn equal_keys_keep_the_order_they_came_in() {
    let keys: Vec<String> = ["b", "a", "b", "a"].iter().map(|k| k.to_string()).collect();
    assert_eq!(sort_positions(&keys), vec![1, 3, 0, 2]);
}

#[test]
fn header_names_come_sorted_and_once_without_values() {
    let opts = LuaValue::Table(vec![(
        s("headers"),
        LuaValue::Table(vec![
            (s("X-Token"), s("secret")),
            (s("Accept"), s("*/*")),
        ]),
    )]);
    let again = LuaValue::Table(vec![
        (s("body"), s("{}")),
        (s("headers"), LuaValue::Table(vec![(s("Accept"), s("json"))])),
    ]);
    assert_eq!(
        header_names_of(&[s("https://x"), opts, again]),
        vec!["Accept".to_string(), "X-Token".to_string()]
    );
    assert!(header_names_of(&[LuaValue::Table(vec![(s("headers"), s("no"))])]).is_empty());
}
#[test]
fn any_depth_past_sixteen_reads_deep() {
    for depth in [17usize, 40, usize::MAX] {
        let mut out = Vec::new();
        absorb_into(&LuaValue::Boolean(true), depth, &mut out);
        assert_eq!(out, b"deep".to_vec());
    }
}
