use coruscant_nbt::de::from_slice;
use coruscant_nbt::dimension::Dimension;
use coruscant_nbt::error::ErrorCode;
use coruscant_nbt::root::Root;
use coruscant_nbt::ser::to_vec;
use coruscant_nbt::value::Value;

#[test]
fn dimension_serialize() {
    let cond = [
        (("OW", &Dimension::Overworld), vec![3u8, 0, 2, 79, 87, 0, 0, 0, 0]),
        (("N", &Dimension::Nether), vec![3, 0, 1, 78, 255, 255, 255, 255]),
        (("E", &Dimension::TheEnd), vec![3, 0, 1, 69, 0, 0, 0, 1]),
    ];
    for (pair, slice) in &cond {
        let data = pair.1.serialize();
        let ans = to_vec(Root::from((pair.0, &data))).expect("serialize data to NBT vec");
        assert_eq!(ans, *slice);
    }
}

#[test]
fn dimension_deserialize() {
    let cond = [
        (("OW", &Dimension::Overworld), vec![3u8, 0, 2, 79, 87, 0, 0, 0, 0]),
        (("N", &Dimension::Nether), vec![3, 0, 1, 78, 255, 255, 255, 255]),
        (("E", &Dimension::TheEnd), vec![3, 0, 1, 69, 0, 0, 0, 1]),
    ];
    for ((_name, data), slice) in &cond {
        let ans: Dimension = from_slice(slice)
            .and_then(|value| Dimension::deserialize(&value))
            .expect("deserialize data from NBT slice");
        assert_eq!(ans, **data);
    }
}

#[test]
#[should_panic]
fn dimension_deserialize_invalid() {
    // int value is changed to 2
    let slice = vec![3u8, 0, 1, 69, 0, 0, 0, 2];
    let _: Dimension = from_slice(&slice)
        .and_then(|value| Dimension::deserialize(&value))
        .expect("deserialize data from NBT slice");
}

#[test]
fn dimension_refusals() {
    let e = Dimension::visit_i32(2).unwrap_err();
    assert_eq!(
        e.code,
        ErrorCode::Message(
            "invalid value: integer `2`, expected an integer 1, 0, or -1".to_string()
        )
    );
    assert_eq!(e.index, 0);
    let e = Dimension::deserialize(&Value::Byte(0)).unwrap_err();
    assert_eq!(
        e.code,
        ErrorCode::Message("invalid type, expected an integer 1, 0, or -1".to_string())
    );
    assert_eq!(Dimension::deserialize(&Value::Int(-1)).unwrap(), Dimension::Nether);
}
