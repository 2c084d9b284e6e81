use sdn_core::node_alias::NodeAliasId;

#[test]
fn test_node_alias_id_display() {
    let alias_id = NodeAliasId(123);
    assert_eq!(alias_id.to_string(), "Alias(123)");
}

#[test]
fn test_node_alias_id_from() {
    let value: u64 = 456;
    let alias_id: NodeAliasId = value.into();
    assert_eq!(alias_id.value(), value);
}

#[test]
fn alias_rendering_covers_zero_and_large_values() {
    assert_eq!(NodeAliasId(0).to_string(), "Alias(0)");
    assert_eq!(NodeAliasId(18446744073709551615).to_string(), "Alias(18446744073709551615)");
}
