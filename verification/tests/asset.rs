use ui4::asset::{load_document, parse_node, DocNode, KdlAssetLoader, LoadError, Op};

fn node(name: &str, children: Vec<DocNode>) -> DocNode {
    DocNode { name: name.to_string(), value_count: 0, property_count: 0, children }
}

fn load(text: &[u8]) -> Result<(), LoadError> {
    KdlAssetLoader.load(text)
}

#[test]
fn a_widget_document_loads() {
    let doc = b"imports {\n    header\n}\nwidget {\n    - {\n        -i\n    }\n    label\n}\n";
    assert!(load(doc).is_ok());
}

#[test]
fn refusals() {
    assert!(matches!(load(&[0xff, 0xfe]), Err(LoadError::NotUtf8)));
    assert!(matches!(load(b"imports {"), Err(LoadError::Syntax(_))));
    assert!(matches!(load(b""), Err(LoadError::MissingNodes)));
    assert!(matches!(load(b"widget"), Err(LoadError::FirstNotImports)));
    assert!(matches!(load(b"imports key=1"), Err(LoadError::ImportsHaveProperties)));
    assert!(matches!(load(b"imports 1"), Err(LoadError::ImportsHaveValues)));
    assert!(matches!(load(b"imports {\n a key=1\n}"), Err(LoadError::ImportHasProperties)));
    assert!(matches!(load(b"imports {\n a 1\n}"), Err(LoadError::ImportHasValues)));
    assert!(matches!(load(b"imports {\n a {\n b\n }\n}"), Err(LoadError::ImportHasChildren)));
    assert!(matches!(load(b"imports {\n ok\n a 1\n b key=2\n}"), Err(LoadError::ImportHasValues)));
}

#[test]
fn steps_of_a_widget() {
    let widget = node(
        "widget",
        vec![
            node("-", vec![node("-i", vec![]), node("text", vec![])]),
            node("color", vec![]),
            node("-i", vec![]),
            node("-", vec![]),
        ],
    );
    let mut ops = Vec::new();
    parse_node(&widget, &mut ops);
    let shape: Vec<String> = ops
        .iter()
        .map(|o| match o {
            Op::EnterChild => "enter".to_string(),
            Op::LeaveChild => "leave".to_string(),
            Op::Import(n) => format!("import {}", n),
        })
        .collect();
    assert_eq!(shape, vec!["enter", "import -i", "leave", "import -i", "enter", "leave"]);
}

#[test]
fn load_document_skips_the_imports_node() {
    let doc = vec![node("imports", vec![]), node("w", vec![node("-", vec![])]), node("v", vec![node("-i", vec![])])];
    let ops = match load_document(&doc) {
        Ok(ops) => ops,
        Err(_) => panic!("the document is valid"),
    };
    assert_eq!(ops.len(), 3);
    assert!(matches!(ops[0], Op::EnterChild));
    assert!(matches!(ops[1], Op::LeaveChild));
    assert!(matches!(&ops[2], Op::Import(n) if n == "-i"));
    let bad = vec![DocNode { value_count: 1, ..node("imports", vec![]) }];
    assert!(matches!(load_document(&bad), Err(LoadError::ImportsHaveValues)));
}
