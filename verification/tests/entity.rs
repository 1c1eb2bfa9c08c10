use fly_ds_challenges::entity::{parse_address, AddressError, Client, Node};

#[test]
fn node_addresses_are_read() {
    assert_eq!(Node::parse("n0"), Ok(Node(0)));
    assert_eq!(Node::parse("n1"), Ok(Node(1)));
    assert_eq!(Node::parse("n12"), Ok(Node(12)));
    assert_eq!(Node::parse("n007"), Ok(Node(7)));
    assert_eq!(Node::parse("n+5"), Ok(Node(5)));
    assert_eq!(Node::parse("n1234567890"), Ok(Node(1234567890)));
}

#[test]
fn client_addresses_are_read() {
    assert_eq!(Client::parse("c0"), Ok(Client(0)));
    assert_eq!(Client::parse("c31"), Ok(Client(31)));
    assert_eq!(Client::parse("c+31"), Ok(Client(31)));
}

#[test]
fn wrong_letter_is_a_format_error() {
    assert_eq!(Node::parse(""), Err(AddressError::Format));
    assert_eq!(Node::parse("c1"), Err(AddressError::Format));
    assert_eq!(Node::parse("N1"), Err(AddressError::Format));
    assert_eq!(Node::parse("1"), Err(AddressError::Format));
    assert_eq!(Node::parse(" n1"), Err(AddressError::Format));
    assert_eq!(Node::parse("én1"), Err(AddressError::Format));
    assert_eq!(Client::parse(""), Err(AddressError::Format));
    assert_eq!(Client::parse("n1"), Err(AddressError::Format));
    assert_eq!(Client::parse("seq-kv"), Err(AddressError::Format));
}

#[test]
fn wrong_index_is_an_index_error() {
    let texts =
        ["n", "n+", "n-1", "n++1", "n1+", "n 1", "n1 ", "n1a", "nn1", "n1_0", "n0x1", "n١"];
    for text in texts {
        assert_eq!(Node::parse(text), Err(AddressError::Index), "{:?}", text);
    }
    for text in ["c", "c+", "c-1", "cc", "c1.0", "c1é"] {
        assert_eq!(Client::parse(text), Err(AddressError::Index), "{:?}", text);
    }
}

#[test]
fn index_must_fit() {
    let max = usize::MAX;
    assert_eq!(Node::parse(&format!("n{}", max)), Ok(Node(max)));
    assert_eq!(Node::parse(&format!("n+000{}", max)), Ok(Node(max)));
    assert_eq!(Node::parse(&format!("n{}0", max)), Err(AddressError::Index));
    assert_eq!(Node::parse(&format!("n{}", max as u128 + 1)), Err(AddressError::Index));
    assert_eq!(Node::parse("n99999999999999999999999999999999"), Err(AddressError::Index));
    assert_eq!(Node::parse("n99999999999999999999999999999999x"), Err(AddressError::Index));
}

#[test]
fn reading_agrees_with_the_standard_parser() {
    let texts = [
        "", "+", "-", "0", "00", "+0", "-0", "12", "+12", "-12", "1 2", " 12", "12 ", "1_2", "١٢",
        "18446744073709551615", "18446744073709551616", "4294967295", "4294967296", "++1", "1+",
    ];
    for text in texts {
        let expected = text.parse::<usize>().map_err(|_| AddressError::Index);
        assert_eq!(parse_address('n', &format!("n{}", text)), expected, "{:?}", text);
    }
}

#[test]
fn addresses_are_written() {
    assert_eq!(Node(0).address(), "n0");
    assert_eq!(Node(7).address(), "n7");
    assert_eq!(Node(10).address(), "n10");
    assert_eq!(Node(1234567890).address(), "n1234567890");
    assert_eq!(Node(usize::MAX).address(), format!("n{}", usize::MAX));
    assert_eq!(Client(0).address(), "c0");
    assert_eq!(Client(409).address(), "c409");
}

#[test]
fn what_is_written_is_read_back() {
    for index in [0, 1, 9, 10, 11, 99, 100, 101, 65535, 65536, usize::MAX - 1, usize::MAX] {
        assert_eq!(Node::parse(&Node(index).address()), Ok(Node(index)));
        assert_eq!(Client::parse(&Client(index).address()), Ok(Client(index)));
        assert_eq!(parse_address('n', &Node(index).address()), Ok(index));
        assert_eq!(parse_address('c', &Node(index).address()), Err(AddressError::Format));
    }
}
