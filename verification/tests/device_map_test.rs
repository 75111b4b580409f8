use mistralrs_bench::device_map::{
    device_map, parse_layer, parse_layers, DeviceLayer, DeviceMap, LayerError,
};

fn args(texts: &[&str]) -> Vec<String> {
    texts.iter().map(|text| text.to_string()).collect()
}

fn layer(ordinal: usize, layers: usize) -> DeviceLayer {
    DeviceLayer { ordinal, layers }
}

#[test]
fn absent_option_is_the_dummy_map() {
    assert_eq!(device_map(&None), Ok(DeviceMap::Dummy));
}

#[test]
fn single_integer_goes_to_the_first_device() {
    assert_eq!(
        device_map(&Some(args(&["24"]))),
        Ok(DeviceMap::Layers(vec![layer(0, 24)]))
    );
    assert_eq!(
        device_map(&Some(args(&["+24"]))),
        Ok(DeviceMap::Layers(vec![layer(0, 24)]))
    );
}

#[test]
fn pairs_are_kept_in_order() {
    assert_eq!(
        device_map(&Some(args(&["1:16", "0:10", "3:0"]))),
        Ok(DeviceMap::Layers(vec![layer(1, 16), layer(0, 10), layer(3, 0)]))
    );
    assert_eq!(
        device_map(&Some(args(&["2:5"]))),
        Ok(DeviceMap::Layers(vec![layer(2, 5)]))
    );
    assert_eq!(
        device_map(&Some(args(&[]))),
        Ok(DeviceMap::Layers(vec![]))
    );
}

#[test]
fn placements_read_back() {
    let mapping = vec![layer(0, 1), layer(17, usize::MAX), layer(usize::MAX, 0)];
    let written = mapping
        .iter()
        .map(|l| format!("{}:{}", l.ordinal, l.layers))
        .collect::<Vec<_>>();
    assert_eq!(parse_layers(&written), Ok(mapping));
}

#[test]
fn two_integers_are_not_pairs() {
    let error = device_map(&Some(args(&["4", "5"]))).unwrap_err();
    assert_eq!(error, LayerError::Format("4".to_string()));
    assert_eq!(
        error.message(),
        "Expected layer to be of format ORD:NUM, got 4"
    );
}

#[test]
fn only_the_first_colon_separates() {
    let error = parse_layer("1:2:3").unwrap_err();
    assert_eq!(error, LayerError::Integer("2:3".to_string()));
    assert_eq!(error.message(), "Failed to parse 2:3 as integer.");
}

#[test]
fn the_ordinal_is_read_before_the_number() {
    assert_eq!(
        parse_layer("a:b"),
        Err(LayerError::Integer("a".to_string()))
    );
    assert_eq!(parse_layer(":5"), Err(LayerError::Integer("".to_string())));
    assert_eq!(parse_layer("5:"), Err(LayerError::Integer("".to_string())));
    assert_eq!(
        parse_layer("1: 2"),
        Err(LayerError::Integer(" 2".to_string()))
    );
    assert_eq!(parse_layer(""), Err(LayerError::Format("".to_string())));
    assert_eq!(
        parse_layer("é:1"),
        Err(LayerError::Integer("é".to_string()))
    );
}

#[test]
fn ordinals_are_unique() {
    let error = parse_layers(&args(&["0:1", "1:2", "+0:3"])).unwrap_err();
    assert_eq!(error, LayerError::DuplicateOrdinal(0));
    assert_eq!(error.message(), "Duplicate ordinal 0");
}

#[test]
fn the_first_fault_is_reported() {
    assert_eq!(
        parse_layers(&args(&["0:1", "0:2", "bad"])),
        Err(LayerError::DuplicateOrdinal(0))
    );
    assert_eq!(
        parse_layers(&args(&["0:1", "0:x", "0:2"])),
        Err(LayerError::Integer("x".to_string()))
    );
}
