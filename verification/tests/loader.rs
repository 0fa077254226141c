//! Checkpoints: decoding, merging, fused weights, file selection.

use std::collections::HashMap;

use safetensors::tensor::{serialize, Dtype, TensorView};
use teenyformers::loader::{
    check_header, decode_tensors, load_all_tensors, resolve_weight, resolve_weights,
    select_checkpoints, tensor_to_f32, LoadError, RawTensor, Tensors,
};

fn file(tensors: &[(&str, Dtype, Vec<usize>, Vec<u8>)]) -> Vec<u8> {
    let views: Vec<(String, TensorView)> = tensors
        .iter()
        .map(|(name, dtype, shape, bytes)| {
            (name.to_string(), TensorView::new(*dtype, shape.clone(), bytes).unwrap())
        })
        .collect();
    serialize(views, None::<HashMap<String, String>>).unwrap()
}

fn f32_bytes(values: &[f32]) -> Vec<u8> {
    values.iter().flat_map(|v| v.to_le_bytes()).collect()
}

fn values(bits: &[u32]) -> Vec<f32> {
    bits.iter().map(|b| f32::from_bits(*b)).collect()
}

fn words(r: Result<Vec<u32>, LoadError>) -> String {
    match r {
        Ok(_) => panic!("no error"),
        Err(e) => e.message(),
    }
}

#[test]
fn decodes_single_precision() {
    let bytes = f32_bytes(&[1.5, -2.0, 0.0]);
    assert_eq!(values(&tensor_to_f32(&"F32".to_string(), &bytes).unwrap()), vec![1.5, -2.0, 0.0]);
}

#[test]
fn decodes_brain_float_and_half() {
    let bytes = [0x80, 0x3F, 0xA0, 0xC0];
    assert_eq!(values(&tensor_to_f32(&"BF16".to_string(), &bytes).unwrap()), vec![1.0, -5.0]);
    let bytes = [0x00, 0x3C, 0x00, 0xC0, 0x01, 0x00];
    assert_eq!(
        values(&tensor_to_f32(&"F16".to_string(), &bytes).unwrap()),
        vec![1.0, -2.0, 2.0_f32.powi(-24)]
    );
}

#[test]
fn bytes_short_of_an_element_are_ignored() {
    let mut bytes = f32_bytes(&[3.0]);
    bytes.extend([1, 2, 3]);
    assert_eq!(values(&tensor_to_f32(&"F32".to_string(), &bytes).unwrap()), vec![3.0]);
    assert_eq!(tensor_to_f32(&"BF16".to_string(), &[7]).unwrap().len(), 0);
    assert_eq!(tensor_to_f32(&"F16".to_string(), &[0, 0x3C, 9]).unwrap().len(), 1);
}

#[test]
fn refuses_other_element_types() {
    assert_eq!(words(tensor_to_f32(&"I64".to_string(), &[])), "unsupported tensor dtype: I64");
}

#[test]
fn loads_a_file() {
    let bytes = file(&[
        ("a", Dtype::F32, vec![2], f32_bytes(&[1.0, 2.0])),
        ("b.weight", Dtype::BF16, vec![1, 2], vec![0x80, 0x3F, 0x00, 0x40]),
        ("c", Dtype::F16, vec![1], vec![0x00, 0x3C]),
    ]);
    assert!(check_header(&bytes));
    let t = load_all_tensors(&vec![bytes]).ok().unwrap();
    assert_eq!(values(t.get("a").unwrap()), vec![1.0, 2.0]);
    assert_eq!(values(t.get("b.weight").unwrap()), vec![1.0, 2.0]);
    assert_eq!(values(t.get("c").unwrap()), vec![1.0]);
    assert!(t.get("d").is_none());
}

#[test]
fn later_files_win() {
    let first = file(&[
        ("a", Dtype::F32, vec![1], f32_bytes(&[1.0])),
        ("b", Dtype::F32, vec![1], f32_bytes(&[2.0])),
    ]);
    let second = file(&[("a", Dtype::F32, vec![1], f32_bytes(&[9.0]))]);
    let t = load_all_tensors(&vec![first, second]).ok().unwrap();
    assert_eq!(values(t.get("a").unwrap()), vec![9.0]);
    assert_eq!(values(t.get("b").unwrap()), vec![2.0]);
}

#[test]
fn no_files() {
    match load_all_tensors(&vec![]) {
        Err(LoadError::NoFiles) => {}
        _ => panic!("expected no files"),
    }
    assert_eq!(LoadError::NoFiles.message(), "no .safetensors files found");
}

#[test]
fn malformed_files() {
    let good = file(&[("a", Dtype::F32, vec![1], f32_bytes(&[1.0]))]);
    let mut cut = good.clone();
    cut.pop();
    for bad in [vec![], vec![1, 2, 3], cut, vec![2, 0, 0, 0, 0, 0, 0, 0, 0x7B, 0x7B]] {
        assert!(check_header(&bad));
        match load_all_tensors(&vec![good.clone(), bad]) {
            Err(LoadError::Malformed(why)) => assert!(!why.is_empty()),
            _ => panic!("expected a malformed file"),
        }
    }
}

#[test]
fn unsupported_files() {
    let bytes = file(&[("a", Dtype::I32, vec![1], vec![1, 0, 0, 0])]);
    match load_all_tensors(&vec![bytes]) {
        Err(LoadError::UnsupportedDtype(name)) => assert_eq!(name, "I32"),
        _ => panic!("expected an unsupported element type"),
    }
}

fn with_header(json: &str) -> Vec<u8> {
    let mut bytes = (json.len() as u64).to_le_bytes().to_vec();
    bytes.extend(json.as_bytes());
    bytes
}

/// A header of `count` tensors of `size` bytes each, one after the other.
fn contiguous(count: u64, size: u64) -> Vec<u8> {
    let tensors: Vec<String> = (0..count)
        .map(|i| {
            let (from, to) = (i * size, (i + 1) * size);
            format!("\"t{i}\":{{\"dtype\":\"U8\",\"shape\":[{size}],\"data_offsets\":[{from},{to}]}}")
        })
        .collect();
    with_header(&format!("{{{}}}", tensors.join(",")))
}

#[test]
fn ends_beyond_a_word_are_found() {
    let largest = (1 << 61) - 1;
    assert!(check_header(&contiguous(7, largest)));
    assert!(!check_header(&contiguous(8, largest)));
    // What is no end offset of a valid header is the reader's to judge.
    let huge = "18446744073709551615";
    for json in [
        format!("{{\"a\":{{\"dtype\":\"F32\",\"shape\":[1],\"data_offsets\":[0,{huge}]}}}}"),
        format!("{{\"a\":{{\"data\\u005foffsets\":[0,{huge}]}}}}"),
        format!("{{\"a\":[[0,{huge}]]}}"),
        format!("{{\"{huge}\":{huge}{huge}}}"),
    ] {
        let bytes = with_header(&json);
        assert!(check_header(&bytes));
        assert!(matches!(load_all_tensors(&vec![bytes]), Err(LoadError::Malformed(_))));
    }
    assert!(check_header(&[0xFF; 16]));
}

#[test]
fn checkpoints_of_any_files() {
    let beyond = contiguous(8, (1 << 61) - 1);
    let good = file(&[("w", Dtype::F32, vec![2], f32_bytes(&[1.5, -2.0]))]);
    let tensors = match load_all_tensors(&vec![good.clone(), good.clone()]) {
        Ok(tensors) => tensors,
        Err(e) => panic!("{}", e.message()),
    };
    assert_eq!(values(tensors.get("w").unwrap()), vec![1.5, -2.0]);
    match load_all_tensors(&vec![good.clone(), beyond.clone(), vec![0; 3]]) {
        Err(LoadError::OffsetOverflow) => {}
        _ => panic!("expected an end beyond reach"),
    }
    assert_eq!(LoadError::OffsetOverflow.message(), "tensor offset overflows");
    match load_all_tensors(&vec![good, vec![0; 3], beyond]) {
        Err(LoadError::Malformed(_)) => {}
        _ => panic!("expected a malformed file"),
    }
    assert!(matches!(load_all_tensors(&vec![]), Err(LoadError::NoFiles)));
}

#[test]
fn empty_tensors_of_huge_extent_are_read() {
    let huge = "18446744073709551615";
    let fields = format!("\"dtype\":\"F32\",\"shape\":[{huge},0],\"data_offsets\":[0,0]");
    for json in [
        format!("{{\"\":{{{fields}}}}}"),
        // A tensor may be an array of its fields.
        format!("{{\"\":[\"F32\",[0,{huge}],[0,0]]}}"),
        // Further keys are ignored, whatever they hold.
        format!("{{\"\":{{{fields},\"x\":[[{huge}]],\"\\u0079\":{huge}}}}}"),
    ] {
        let bytes = with_header(&json);
        assert!(check_header(&bytes));
        match load_all_tensors(&vec![bytes]) {
            Ok(tensors) => assert!(tensors.get("").unwrap().is_empty()),
            Err(e) => panic!("{}", e.message()),
        }
    }
}

#[test]
fn weights_up_to_the_first_missing_one() {
    let raw = table(&[("a", &[1.0]), ("b.gate_proj.weight", &[2.0]), ("b.up_proj.weight", &[3.0])]);
    let keys: Vec<String> =
        ["b.gate_up_proj.weight", "a", "c", "a"].iter().map(|k| k.to_string()).collect();
    let (found, missing) = resolve_weights(&keys, &raw);
    assert_eq!(found.len(), 2);
    assert_eq!(values(&found[0]), vec![2.0, 3.0]);
    assert_eq!(values(&found[1]), vec![1.0]);
    assert_eq!(missing.unwrap().message(), "missing weight: c");
    let (found, missing) = resolve_weights(&keys[..2].to_vec(), &raw);
    assert_eq!(found.len(), 2);
    assert!(missing.is_none());
}

fn table(entries: &[(&str, &[f32])]) -> Tensors {
    let mut t = Tensors::new();
    for (name, data) in entries {
        t.insert(name.to_string(), data.iter().map(|v| v.to_bits()).collect());
    }
    t
}

#[test]
fn plain_weights_are_looked_up() {
    let t = table(&[("model.norm.weight", &[1.0, 2.0])]);
    assert_eq!(values(&resolve_weight("model.norm.weight", &t).unwrap()), vec![1.0, 2.0]);
    assert_eq!(words(resolve_weight("lm_head.weight", &t)), "missing weight: lm_head.weight");
}

#[test]
fn fused_weights_are_concatenated() {
    let t = table(&[
        ("model.layers.0.mlp.gate_proj.weight", &[1.0, 2.0]),
        ("model.layers.0.mlp.up_proj.weight", &[3.0]),
    ]);
    let data = resolve_weight("model.layers.0.mlp.gate_up_proj.weight", &t).unwrap();
    assert_eq!(values(&data), vec![1.0, 2.0, 3.0]);
}

#[test]
fn missing_halves() {
    let key = "m.gate_up_proj.weight";
    assert_eq!(words(resolve_weight(key, &table(&[]))), "missing: m.gate_proj.weight");
    assert_eq!(
        words(resolve_weight(key, &table(&[("m.gate_proj.weight", &[1.0])]))),
        "missing: m.up_proj.weight"
    );
    // The fused tensor itself does not count.
    assert_eq!(
        words(resolve_weight(key, &table(&[(key, &[1.0])]))),
        "missing: m.gate_proj.weight"
    );
}

#[test]
fn every_occurrence_is_replaced() {
    let key = "a.gate_up_proj.weight.b.gate_up_proj.weight";
    assert_eq!(
        words(resolve_weight(key, &table(&[]))),
        "missing: a.gate_proj.weight.b.gate_proj.weight"
    );
    // Not at the end: an ordinary key.
    assert_eq!(
        words(resolve_weight("x.gate_up_proj.weight2", &table(&[]))),
        "missing weight: x.gate_up_proj.weight2"
    );
    assert_eq!(words(resolve_weight("é.gate_up_proj.weight", &table(&[]))), "missing: é.gate_proj.weight");
}

#[test]
fn decoded_lists_replace_by_name() {
    let mut t = table(&[("a", &[1.0]), ("b", &[2.0])]);
    let list = vec![RawTensor {
        name: "a".to_string(),
        dtype: "F32".to_string(),
        data: f32_bytes(&[7.0, 8.0]),
    }];
    assert!(decode_tensors(list, &mut t).is_ok());
    assert_eq!(values(t.get("a").unwrap()), vec![7.0, 8.0]);
    assert_eq!(values(t.get("b").unwrap()), vec![2.0]);
    let list = vec![RawTensor { name: "a".to_string(), dtype: "U8".to_string(), data: vec![1] }];
    match decode_tensors(list, &mut t) {
        Err(LoadError::UnsupportedDtype(name)) => assert_eq!(name, "U8"),
        _ => panic!("expected an unsupported element type"),
    }
}

#[test]
fn checkpoint_files_are_selected_in_order() {
    let names: Vec<Vec<u8>> = [
        "model-00002-of-00002.safetensors",
        "config.json",
        "model-00001-of-00002.safetensors",
        ".safetensors",
        "a.safetensors.bak",
        "adapter.safetensors",
        "safetensors",
        "Model.SAFETENSORS",
        "..safetensors",
    ]
    .iter()
    .map(|n| n.as_bytes().to_vec())
    .collect();
    assert_eq!(select_checkpoints(&names), vec![8, 5, 2, 0]);
    for (i, n) in names.iter().enumerate() {
        let path = std::path::Path::new(std::str::from_utf8(n).unwrap());
        let expected = path.extension().map(|x| x == "safetensors").unwrap_or(false);
        assert_eq!(select_checkpoints(&names).contains(&i), expected);
    }
    assert_eq!(select_checkpoints(&vec![]), Vec::<usize>::new());
}
