use paint_layers::{Id, LayerId, Order};

const ALL: [Order; 5] =
    [Order::Background, Order::Middle, Order::Foreground, Order::Tooltip, Order::Debug];

#[test]
fn order_is_background_to_debug() {
    assert!(Order::Background < Order::Middle);
    assert!(Order::Middle < Order::Foreground);
    assert!(Order::Foreground < Order::Tooltip);
    assert!(Order::Tooltip < Order::Debug);
    assert_eq!(Order::TOP, Order::Debug);
}

#[test]
fn order_index_follows_paint_order() {
    for (i, order) in ALL.iter().enumerate() {
        assert_eq!(order.index(), i);
        assert_eq!(Order::from_index(i), *order);
    }
    for a in ALL {
        for b in ALL {
            assert_eq!(a < b, a.index() < b.index());
            assert_eq!(a == b, a.index() == b.index());
        }
    }
}

#[test]
fn every_order_allows_interaction() {
    for order in ALL {
        assert!(order.allow_interaction());
        assert!(LayerId::new(order, Id::from_hash(1)).allow_interaction());
    }
}

#[test]
fn order_short_names() {
    assert_eq!(Order::Background.short_debug_format(), "backg");
    assert_eq!(Order::Middle.short_debug_format(), "middl");
    assert_eq!(Order::Foreground.short_debug_format(), "foreg");
    assert_eq!(Order::Tooltip.short_debug_format(), "toolt");
    assert_eq!(Order::Debug.short_debug_format(), "debug");
}

#[test]
fn id_short_form_is_four_hex_digits_of_the_low_bits() {
    assert_eq!(Id::from_hash(0).short_debug_format(), "0000");
    assert_eq!(Id::from_hash(0xABCD).short_debug_format(), "ABCD");
    assert_eq!(Id::from_hash(0x1234_5678_9ABC_DEF0).short_debug_format(), "DEF0");
    assert_eq!(Id::from_hash(0x1_0009).short_debug_format(), "0009");
    assert_eq!(Id::from_hash(u64::MAX).short_debug_format(), "FFFF");
    assert_eq!(Id::from_hash(0x0A0B).short_debug_format(), "0A0B");
    for value in [0u64, 1, 15, 16, 255, 4096, 65535, 65536, 0xDEAD_BEEF] {
        assert_eq!(Id::from_hash(value).short_debug_format(), format!("{:04X}", value as u16));
    }
}

#[test]
fn layer_short_form_joins_order_and_id() {
    let layer = LayerId::new(Order::Middle, Id::from_hash(0x00FF_12AB));
    assert_eq!(layer.short_debug_format(), "middl 12AB");
    let layer = LayerId::new(Order::Tooltip, Id::from_hash(7));
    assert_eq!(layer.short_debug_format(), "toolt 0007");
}

#[test]
fn id_keeps_its_value() {
    assert_eq!(Id::from_hash(42).value(), 42);
    assert_eq!(Id::from_hash(42), Id::from_hash(42));
    assert_ne!(Id::from_hash(42), Id::from_hash(43));
}

#[test]
fn id_of_a_name_depends_on_the_name_only() {
    assert_eq!(Id::new("window"), Id::new("window"));
    assert_ne!(Id::new("window"), Id::new("tooltip"));
    assert_ne!(Id::new("A"), Id::new("B"));
    assert_eq!(Id::new("window").value(), epaint::util::hash("window"));
}

#[test]
fn layers_are_equal_iff_both_fields_are() {
    let a = LayerId::new(Order::Middle, Id::new("a"));
    assert_eq!(a, LayerId { order: Order::Middle, id: Id::new("a") });
    assert_ne!(a, LayerId::new(Order::Foreground, Id::new("a")));
    assert_ne!(a, LayerId::new(Order::Middle, Id::new("b")));
    assert_eq!(a.order, Order::Middle);
    assert_eq!(a.id, Id::new("a"));
}

#[test]
fn reserved_layers() {
    assert_eq!(LayerId::debug(), LayerId::new(Order::Debug, Id::new("debug")));
    assert_eq!(LayerId::background(), LayerId::new(Order::Background, Id::new("background")));
    assert_eq!(LayerId::debug(), LayerId::debug());
    assert_eq!(LayerId::background().order, Order::Background);
    assert_eq!(LayerId::debug().order, Order::TOP);
}
