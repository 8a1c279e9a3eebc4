use rusty_racer::graph::synthetic_sources;

#[test]
fn synthetic_tree_of_three() {
    let s = synthetic_sources(3);
    assert_eq!(s.len(), 3);
    assert_eq!(s[0].0, "/mod_0.js");
    assert_eq!(
        s[0].1,
        "import \"./mod_1.js\";\nimport \"./mod_2.js\";\nglobalThis.__loaded = (globalThis.__loaded || 0) + 1;\nexport const id = 0;\n"
    );
    assert_eq!(
        s[2].1,
        "globalThis.__loaded = (globalThis.__loaded || 0) + 1;\nexport const id = 2;\n"
    );
}
