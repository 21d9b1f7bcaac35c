use platter_game::enable_disable::EnableDisable;
use platter_game::enable_disable::GetEnabledDisabled;
use platter_game::enable_disable::SetEnabledDisabled;

#[derive(Debug, PartialEq)]
struct MultiNamed {
    enabled: bool,
    other: u32,
}

impl GetEnabledDisabled for MultiNamed {
    fn enabled_spec(&self) -> bool {
        self.enabled
    }

    fn is_enabled(&self) -> bool {
        self.enabled.is_enabled()
    }
}

impl SetEnabledDisabled for MultiNamed {
    fn set_enabled_disabled(&mut self, enable: bool) {
        self.enabled.set_enabled_disabled(enable);
    }
}

impl EnableDisable for MultiNamed {}

#[derive(Debug, PartialEq)]
struct SingleUnnamed(bool);

impl GetEnabledDisabled for SingleUnnamed {
    fn enabled_spec(&self) -> bool {
        self.0
    }

    fn is_enabled(&self) -> bool {
        self.0.is_enabled()
    }
}

impl SetEnabledDisabled for SingleUnnamed {
    fn set_enabled_disabled(&mut self, enable: bool) {
        self.0.set_enabled_disabled(enable);
    }
}

impl EnableDisable for SingleUnnamed {}

#[derive(Debug, PartialEq)]
struct Nested {
    enabled: SingleUnnamed,
}

impl GetEnabledDisabled for Nested {
    fn enabled_spec(&self) -> bool {
        self.enabled.is_enabled()
    }

    fn is_enabled(&self) -> bool {
        self.enabled.is_enabled()
    }
}

impl SetEnabledDisabled for Nested {
    fn set_enabled_disabled(&mut self, enable: bool) {
        self.enabled.set_enabled_disabled(enable);
    }
}

impl EnableDisable for Nested {}

#[test]
fn test_enable_disable_impl() {
    fn do_something<T: EnableDisable>(thing: T) -> T {
        thing
    }
    do_something(MultiNamed {
        enabled: true,
        other: 0,
    });
}

#[test]
fn test_is_enabled() {
    let test_instance = MultiNamed {
        enabled: true,
        other: 0,
    };

    assert!(test_instance.is_enabled());
}

#[test]
fn test_is_disabled() {
    let test_instance = MultiNamed {
        enabled: false,
        other: 0,
    };

    assert!(test_instance.is_disabled());
}

#[test]
fn test_set_enabled() {
    let mut test_instance = MultiNamed {
        enabled: false,
        other: 0,
    };

    test_instance.set_enabled();
    assert_eq!(
        test_instance,
        MultiNamed {
            enabled: true,
            other: 0,
        }
    );
}

#[test]
fn test_set_disabled() {
    let mut test_instance = MultiNamed {
        enabled: true,
        other: 0,
    };

    test_instance.set_disabled();
    assert_eq!(
        test_instance,
        MultiNamed {
            enabled: false,
            other: 0,
        }
    );
}

#[test]
fn test_set_enabled_disabled() {
    let mut test_instance = MultiNamed {
        enabled: true,
        other: 0,
    };

    test_instance.set_enabled_disabled(false);
    assert_eq!(
        test_instance,
        MultiNamed {
            enabled: false,
            other: 0,
        }
    );

    test_instance.set_enabled_disabled(true);
    assert_eq!(
        test_instance,
        MultiNamed {
            enabled: true,
            other: 0,
        }
    );
}

#[test]
fn enable_disable_test_enable_disable_impl() {
    fn do_something<T: EnableDisable>(thing: T) -> T {
        thing
    }
    do_something(SingleUnnamed(true));
}

#[test]
fn enable_disable_test_is_enabled() {
    let test_instance = SingleUnnamed(true);

    assert!(test_instance.is_enabled());
}

#[test]
fn enable_disable_test_is_disabled() {
    let test_instance = SingleUnnamed(false);

    assert!(test_instance.is_disabled());
}

#[test]
fn enable_disable_test_set_enabled() {
    let mut test_instance = SingleUnnamed(false);

    test_instance.set_enabled();
    assert_eq!(test_instance, SingleUnnamed(true));
}

#[test]
fn enable_disable_test_set_disabled() {
    let mut test_instance = SingleUnnamed(true);

    test_instance.set_disabled();
    assert_eq!(test_instance, SingleUnnamed(false));
}

#[test]
fn enable_disable_test_set_enabled_disabled() {
    let mut test_instance = SingleUnnamed(true);

    test_instance.set_enabled_disabled(false);
    assert_eq!(test_instance, SingleUnnamed(false));

    test_instance.set_enabled_disabled(true);
    assert_eq!(test_instance, SingleUnnamed(true));
}

#[test]
fn test_set_get() {
    let mut instance = Nested {
        enabled: SingleUnnamed(false),
    };
    instance.set_enabled();
    assert_eq!(
        instance,
        Nested {
            enabled: SingleUnnamed(true)
        }
    );
}

#[test]
fn bool_enable_disable_roundtrip() {
    let mut b = false;
    assert!(b.is_disabled());
    b.set_enabled();
    assert!(b.is_enabled());
    b.set_enabled_disabled(false);
    assert!(!b.is_enabled());
}
