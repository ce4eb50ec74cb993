use protohack::rewrite::replace_coin_addrs;

#[test]
fn replace_coin_addr_test() {
    let input = "".to_string();
    let expected = "".to_string();
    assert_eq!(expected, replace_coin_addrs(input));

    let input =
        "Hi alice, please send payment to 7iKDZEwPZSqIvDnHvVN2r0hUWXD5rHX\n".to_string();
    let expected = "Hi alice, please send payment to 7YWHMfk9JZe0LM0g1ZauHuiSxhI\n".to_string();
    assert_eq!(expected, replace_coin_addrs(input));

    // with period
    let input = "Hi alice, please send payment to 7iKDZEwPZSqIvDnHvVN2r0hUWXD5rHX.".to_string();
    let expected = "Hi alice, please send payment to 7YWHMfk9JZe0LM0g1ZauHuiSxhI.".to_string();
    assert_eq!(expected, replace_coin_addrs(input));

    let input = "please send 750 coins to 7iKDZEwPZSqIvDnHvVN2r0hUWXD5rHX\n".to_string();
    let expected = "please send 750 coins to 7YWHMfk9JZe0LM0g1ZauHuiSxhI\n".to_string();
    assert_eq!(expected, replace_coin_addrs(input));

    let input = "Send refunds to 7wLWEPxI9ta4H46wssWIc2FfGd please.".to_string();
    let expected = "Send refunds to 7YWHMfk9JZe0LM0g1ZauHuiSxhI please.".to_string();
    assert_eq!(expected, replace_coin_addrs(input));

    let input = "This is too long:
7sR97DfSFVSrsva9QHjQjbUmL3pgPuFRfG9l"
        .to_string();
    let expected = input.clone();
    assert_eq!(expected, replace_coin_addrs(input));

    let input = "This is a product ID, not a Boguscoin: 7nu8pGmR4XwrT2ENbJqEwPDqQmEqJJ_w7eizuzpNeRhWMzcKYp0qQmbr5sl_1234".to_string();
    let expected = input.clone();
    assert_eq!(expected, replace_coin_addrs(input));

    let input = "This is a product ID, not a Boguscoin: 7nu8pGmR4XwrT2ENbJqEwPDqQmEqJJ-w7eizuzpNeRhWMzcKYp0qQmbr5sl-1234".to_string();
    let expected = input.clone();
    assert_eq!(expected, replace_coin_addrs(input))
}

#[test]
fn an_address_can_stand_alone() {
    let input = "7iKDZEwPZSqIvDnHvVN2r0hUWXD5rHX".to_string();
    let expected = "7YWHMfk9JZe0LM0g1ZauHuiSxhI".to_string();
    assert_eq!(expected, replace_coin_addrs(input));
}

#[test]
fn two_addresses_in_one_line_are_both_replaced() {
    let input = "pay 7iKDZEwPZSqIvDnHvVN2r0hUWXD5rHX or 7wLWEPxI9ta4H46wssWIc2FfGd now".to_string();
    let expected =
        "pay 7YWHMfk9JZe0LM0g1ZauHuiSxhI or 7YWHMfk9JZe0LM0g1ZauHuiSxhI now".to_string();
    assert_eq!(expected, replace_coin_addrs(input));
}

#[test]
fn short_runs_are_kept() {
    let input = "room 7A is open".to_string();
    let expected = input.clone();
    assert_eq!(expected, replace_coin_addrs(input));
}
