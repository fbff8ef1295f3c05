use ethabi_types::{Error, ParamType, Reader};

#[test]
fn test_read_param() {
    assert_eq!(Reader::read("address").unwrap(), ParamType::Address);
    assert_eq!(Reader::read("bytes").unwrap(), ParamType::Bytes);
    assert_eq!(Reader::read("bytes32").unwrap(), ParamType::FixedBytes(32));
    assert_eq!(Reader::read("bool").unwrap(), ParamType::Bool);
    assert_eq!(Reader::read("string").unwrap(), ParamType::String);
    assert_eq!(Reader::read("int").unwrap(), ParamType::Int(256));
    assert_eq!(Reader::read("uint").unwrap(), ParamType::Uint(256));
    assert_eq!(Reader::read("int32").unwrap(), ParamType::Int(32));
    assert_eq!(Reader::read("uint32").unwrap(), ParamType::Uint(32));
}

#[test]
fn test_read_array_param() {
    assert_eq!(
        Reader::read("address[]").unwrap(),
        ParamType::Array(Box::new(ParamType::Address))
    );
    assert_eq!(
        Reader::read("uint[]").unwrap(),
        ParamType::Array(Box::new(ParamType::Uint(256)))
    );
    assert_eq!(
        Reader::read("bytes[]").unwrap(),
        ParamType::Array(Box::new(ParamType::Bytes))
    );
    assert_eq!(
        Reader::read("bool[][]").unwrap(),
        ParamType::Array(Box::new(ParamType::Array(Box::new(ParamType::Bool))))
    );
}

#[test]
fn test_read_fixed_array_param() {
    assert_eq!(
        Reader::read("address[2]").unwrap(),
        ParamType::FixedArray(Box::new(ParamType::Address), 2)
    );
    assert_eq!(
        Reader::read("bool[17]").unwrap(),
        ParamType::FixedArray(Box::new(ParamType::Bool), 17)
    );
    assert_eq!(
        Reader::read("bytes[45][3]").unwrap(),
        ParamType::FixedArray(
            Box::new(ParamType::FixedArray(Box::new(ParamType::Bytes), 45)),
            3
        )
    );
}

#[test]
fn test_read_mixed_arrays() {
    assert_eq!(
        Reader::read("bool[][3]").unwrap(),
        ParamType::FixedArray(Box::new(ParamType::Array(Box::new(ParamType::Bool))), 3)
    );
    assert_eq!(
        Reader::read("bool[3][]").unwrap(),
        ParamType::Array(Box::new(ParamType::FixedArray(Box::new(ParamType::Bool), 3)))
    );
}

#[test]
fn test_read_struct_param() {
    assert_eq!(
        Reader::read("{address,bool}").unwrap(),
        ParamType::Tuple(vec![Box::new(ParamType::Address), Box::new(ParamType::Bool)])
    );
    assert_eq!(
        Reader::read("{bool[3],uint256}").unwrap(),
        ParamType::Tuple(vec![
            Box::new(ParamType::FixedArray(Box::new(ParamType::Bool), 3)),
            Box::new(ParamType::Uint(256))
        ])
    );
}

#[test]
fn read_bracket_tuples() {
    assert_eq!(
        Reader::read("[address,bool]").unwrap(),
        ParamType::Tuple(vec![Box::new(ParamType::Address), Box::new(ParamType::Bool)])
    );
    assert_eq!(
        Reader::read("[bool[3],uint256]").unwrap(),
        ParamType::Tuple(vec![
            Box::new(ParamType::FixedArray(Box::new(ParamType::Bool), 3)),
            Box::new(ParamType::Uint(256))
        ])
    );
    assert_eq!(
        Reader::read("[[address,bool],string]").unwrap(),
        ParamType::Tuple(vec![
            Box::new(ParamType::Tuple(vec![
                Box::new(ParamType::Address),
                Box::new(ParamType::Bool)
            ])),
            Box::new(ParamType::String)
        ])
    );
}

#[test]
fn read_bare_tuple_is_empty() {
    assert_eq!(Reader::read("tuple").unwrap(), ParamType::Tuple(vec![]));
    assert_eq!(
        Reader::read("tuple[]").unwrap(),
        ParamType::Array(Box::new(ParamType::Tuple(vec![])))
    );
}

#[test]
fn read_suffixed_keywords() {
    assert_eq!(Reader::read("int8").unwrap(), ParamType::Int(8));
    assert_eq!(Reader::read("uint48").unwrap(), ParamType::Uint(48));
    assert_eq!(Reader::read("bytes1").unwrap(), ParamType::FixedBytes(1));
    assert_eq!(Reader::read("uint1000").unwrap(), ParamType::Uint(1000));
    assert_eq!(Reader::read("uint+7").unwrap(), ParamType::Uint(7));
    assert_eq!(
        Reader::read("bytes32[2]").unwrap(),
        ParamType::FixedArray(Box::new(ParamType::FixedBytes(32)), 2)
    );
}

#[test]
fn read_invalid_names() {
    assert_eq!(Reader::read("foo"), Err(Error::InvalidName("foo".to_string())));
    assert_eq!(Reader::read(""), Err(Error::InvalidName(String::new())));
    assert_eq!(Reader::read("address]"), Err(Error::InvalidName("address]".to_string())));
    assert_eq!(Reader::read("[]"), Err(Error::InvalidName(String::new())));
    assert_eq!(Reader::read("[a]]"), Err(Error::InvalidName("a".to_string())));
}

#[test]
fn read_invalid_numbers() {
    assert_eq!(Reader::read("uintx"), Err(Error::InvalidNumber));
    assert_eq!(Reader::read("int-8"), Err(Error::InvalidNumber));
    assert_eq!(Reader::read("bytes+"), Err(Error::InvalidNumber));
    assert_eq!(Reader::read("bool[x]"), Err(Error::InvalidNumber));
    assert_eq!(Reader::read("uint99999999999999999999999"), Err(Error::InvalidNumber));
    assert_eq!(Reader::read("bool[99999999999999999999999]"), Err(Error::InvalidNumber));
}

#[test]
fn read_array_of_reads_prefix() {
    for t in ["address", "uint8", "bool[2]", "string[]", "{bool,int}"] {
        let inner = Reader::read(t).unwrap();
        let dynamic = Reader::read(&format!("{}[]", t)).unwrap();
        assert_eq!(dynamic, ParamType::Array(Box::new(Reader::read(t).unwrap())));
        let fixed = Reader::read(&format!("{}[7]", t)).unwrap();
        assert_eq!(fixed, ParamType::FixedArray(Box::new(inner), 7));
    }
}

#[test]
fn canonical_names_read_back() {
    let cases: Vec<(&str, ParamType)> = vec![
        ("uint8[][3]", ParamType::FixedArray(Box::new(ParamType::Array(Box::new(ParamType::Uint(8)))), 3)),
        ("bytes4[2][]", ParamType::Array(Box::new(ParamType::FixedArray(Box::new(ParamType::FixedBytes(4)), 2)))),
        ("int0", ParamType::Int(0)),
        ("string[0]", ParamType::FixedArray(Box::new(ParamType::String), 0)),
        ("address[18446744073709551615]", ParamType::FixedArray(Box::new(ParamType::Address), usize::MAX)),
    ];
    for (name, t) in cases {
        assert_eq!(Reader::read(name).unwrap(), t);
    }
}
