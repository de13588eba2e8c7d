use sonnetics_core::manifest::{
    find_entry, Manifest, ManifestModel, PackError, DEFAULT_PHRASE, LAYER1_ID, LAYER2_ID,
};

fn model(id: &str, file: &str) -> ManifestModel {
    ManifestModel { id: id.to_string(), file: file.to_string() }
}

fn pack(labels: Option<Vec<String>>) -> Manifest {
    Manifest {
        models: vec![
            model("layer1", "models/layer1.onnx"),
            model("layer2", "models/layer2.onnx"),
        ],
        labels,
    }
}

#[test]
fn finds_layer_files() {
    let m = pack(None);
    assert_eq!(m.model_file(LAYER1_ID), Some("models/layer1.onnx".to_string()));
    assert_eq!(m.model_file(LAYER2_ID), Some("models/layer2.onnx".to_string()));
    assert_eq!(m.model_file("layer3"), None);
}

#[test]
fn last_listed_model_wins() {
    let m = Manifest {
        models: vec![model("layer1", "a.onnx"), model("layer2", "b.onnx"), model("layer1", "c.onnx")],
        labels: None,
    };
    assert_eq!(m.model_file("layer1"), Some("c.onnx".to_string()));
}

#[test]
fn empty_manifest_has_no_models() {
    let m = Manifest { models: vec![], labels: None };
    assert_eq!(m.model_file("layer1"), None);
}

#[test]
fn phrase_is_positive_label() {
    let m = pack(Some(vec!["noise".to_string(), "hey alfred".to_string()]));
    assert_eq!(m.detected_phrase(), "hey alfred");
}

#[test]
fn phrase_defaults_to_wake() {
    assert_eq!(pack(None).detected_phrase(), DEFAULT_PHRASE);
    assert_eq!(pack(None).detected_phrase(), "wake");
    assert_eq!(pack(Some(vec![])).detected_phrase(), "wake");
    assert_eq!(pack(Some(vec!["only".to_string()])).detected_phrase(), "wake");
}

fn names(list: &[&str]) -> Vec<String> {
    list.iter().map(|s| s.to_string()).collect()
}

#[test]
fn find_entry_gives_first_match() {
    let n = names(&["a", "b", "a"]);
    assert_eq!(find_entry(&n, &"a".to_string()), Some(0));
    assert_eq!(find_entry(&n, &"b".to_string()), Some(1));
    assert_eq!(find_entry(&n, &"c".to_string()), None);
}

#[test]
fn locate_layers_in_pack() {
    let n = names(&["models/layer2.onnx", "manifest", "models/layer1.onnx"]);
    assert_eq!(pack(None).locate_layers(&n), Ok((2, 0)));
}

#[test]
fn locate_layers_reports_first_missing_layer() {
    assert_eq!(
        pack(None).locate_layers(&names(&["models/layer2.onnx"])),
        Err(PackError::MissingLayer1)
    );
    assert_eq!(
        pack(None).locate_layers(&names(&["models/layer1.onnx"])),
        Err(PackError::MissingLayer2)
    );
    assert_eq!(pack(None).locate_layers(&names(&[])), Err(PackError::MissingLayer1));
    let only_layer2 = Manifest { models: vec![model("layer2", "x.onnx")], labels: None };
    assert_eq!(only_layer2.locate_layers(&names(&["x.onnx"])), Err(PackError::MissingLayer1));
}

#[test]
fn last_listed_file_must_be_present() {
    let m = Manifest {
        models: vec![model("layer1", "a.onnx"), model("layer2", "b.onnx"), model("layer1", "c.onnx")],
        labels: None,
    };
    assert_eq!(m.locate_layers(&names(&["a.onnx", "b.onnx"])), Err(PackError::MissingLayer1));
    assert_eq!(m.locate_layers(&names(&["c.onnx", "b.onnx"])), Ok((0, 1)));
}
