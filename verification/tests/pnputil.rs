use cove_optimizer::drivers::pnputil::{
    parse_rank, parse_uint_token, split_driver_version, PnputilParseError,
};

#[test]
fn split_driver_version_parses_date_and_version() {
    assert_eq!(
        split_driver_version("09/16/2025 6.0.9888.1").unwrap(),
        (Some("09/16/2025".into()), Some("6.0.9888.1".into()))
    );
    assert_eq!(
        split_driver_version("2025-09-16 6.0.9888.1").unwrap(),
        (Some("2025-09-16".into()), Some("6.0.9888.1".into()))
    );
    assert_eq!(
        split_driver_version("6.0.9888.1").unwrap(),
        (None, Some("6.0.9888.1".into()))
    );
    assert_eq!(split_driver_version("").unwrap(), (None, None));
    assert!(matches!(
        split_driver_version("2025-99-99 6.0.9888.1"),
        Err(PnputilParseError::Malformed(_))
    ));
    assert!(matches!(
        split_driver_version("99/99/2025 6.0.9888.1"),
        Err(PnputilParseError::Malformed(_))
    ));
    assert!(matches!(
        split_driver_version("02/30/2024 1.0.0.0"),
        Err(PnputilParseError::Malformed(_))
    ));
    assert_eq!(
        split_driver_version("02/29/2024 1.0.0.0").unwrap(),
        (Some("02/29/2024".into()), Some("1.0.0.0".into()))
    );
    assert!(matches!(
        split_driver_version("2025-02-29 1.0.0.0"),
        Err(PnputilParseError::Malformed(_))
    ));
    assert_eq!(
        split_driver_version("07/18/1968 1.0.0.0").unwrap(),
        (Some("07/18/1968".into()), Some("1.0.0.0".into()))
    );
    assert!(matches!(
        split_driver_version("2025-99-99"),
        Err(PnputilParseError::Malformed(_))
    ));
}

#[test]
fn parse_rank_accepts_hex() {
    assert_eq!(parse_rank("00FF0001").unwrap(), 0x00FF_0001);
    assert_eq!(parse_rank("00000000").unwrap(), 0);
    assert!(parse_rank("not-hex").is_err());
}

#[test]
fn parse_uint_token_accepts_hex_and_decimal() {
    assert_eq!(parse_uint_token("0x00000000 (0)").unwrap(), 0);
    assert_eq!(parse_uint_token("0x0000001C (28)").unwrap(), 28);
    assert_eq!(parse_uint_token("28 (0x1C)").unwrap(), 28);
    assert_eq!(parse_uint_token("10").unwrap(), 10);
}

#[test]
fn split_driver_version_error_message_names_the_token() {
    match split_driver_version("2025-13-01 1.0") {
        Err(PnputilParseError::Malformed(m)) => {
            assert_eq!(m, "invalid Driver Version date: 2025-13-01")
        }
        other => panic!("unexpected {:?}", other),
    }
}

#[test]
fn parse_rank_rejects_overflow_and_empty() {
    assert!(parse_rank("1FFFFFFFF").is_err());
    assert!(parse_rank("   ").is_err());
    assert_eq!(parse_rank(" ffffffff ").unwrap(), u32::MAX);
}

#[test]
fn parse_error_messages_are_stable() {
    assert_eq!(PnputilParseError::EmptyInput.message(), "PnPUtil produced no output");
    assert_eq!(
        PnputilParseError::Malformed("x".to_string()).message(),
        "malformed PnPUtil output: x"
    );
}

use cove_optimizer::drivers::pnputil::{parse_enum_devices, EnumMode};

const FULL_OUTPUT: &str = "Microsoft PnP Utility

Instance ID:                PCI\\VEN_10EC&DEV_8168\\01
Device Description:         Realtek PCIe GbE Family Controller
Class Name:                 Net
Class GUID:                 {4d36e972-e325-11ce-bfc1-08002be10318}
Manufacturer Name:          Realtek
Status:                     Started
Driver Name:                oem12.inf
Hardware IDs:               PCI\\VEN_10EC&DEV_8168&SUBSYS_86771043&REV_15
                            PCI\\VEN_10EC&DEV_8168&SUBSYS_86771043
                            pci\\ven_10ec&dev_8168&subsys_86771043
Compatible IDs:             PCI\\VEN_10EC&DEV_8168&REV_15
                            PCI\\VEN_10EC&DEV_8168
Matching Drivers:
    Driver Name:            net8168.inf
    Original Name:          net8168.inf
    Provider Name:          Microsoft
    Class Name:             Net
    Driver Version:         06/21/2006 10.1.0.0
    Signer Name:            Microsoft Windows
    Driver Rank:            00FF2001
    Driver Status:          Outranked
    Driver Name:            oem12.inf
    Original Name:          rt640x64.inf
    Provider Name:          Realtek
    Class Name:             Net
    Class GUID:             {4d36e972-e325-11ce-bfc1-08002be10318}
    Driver Version:         09/16/2025 10.75.1003.2025
    Signer Name:            Microsoft Windows Hardware Compatibility Publisher
    Matching Device ID:     PCI\\VEN_10EC&DEV_8168&SUBSYS_86771043
    Driver Rank:            00FF0001
    Driver Status:          Best Ranked / Installed
Properties:
    DEVPKEY_Device_ProblemCode [UInt32]:
        0x0000001C (28)
    DEVPKEY_Device_DriverInfPath [String]:
        oem12.inf
";

#[test]
fn full_enumeration_parses_one_complete_device() {
    let parsed = parse_enum_devices(FULL_OUTPUT, EnumMode::Full).unwrap();
    assert!(parsed.complete);
    assert!(!parsed.degraded);
    assert_eq!(parsed.devices.len(), 1);
    let d = &parsed.devices[0];
    assert_eq!(d.instance_id, "PCI\\VEN_10EC&DEV_8168\\01");
    assert_eq!(d.description.as_deref(), Some("Realtek PCIe GbE Family Controller"));
    assert_eq!(d.class_name.as_deref(), Some("Net"));
    assert_eq!(d.manufacturer.as_deref(), Some("Realtek"));
    // The case-insensitive repeat of the second hardware ID is dropped.
    assert_eq!(
        d.hardware_ids,
        vec![
            "PCI\\VEN_10EC&DEV_8168&SUBSYS_86771043&REV_15".to_string(),
            "PCI\\VEN_10EC&DEV_8168&SUBSYS_86771043".to_string(),
        ]
    );
    assert_eq!(d.compatible_ids.len(), 2);
    assert_eq!(d.problem_code, Some(28));
    assert_eq!(d.matching.len(), 2);
    assert_eq!(d.matching[0].inf_name, "net8168.inf");
    assert_eq!(d.matching[0].rank, Some(0x00FF2001));
    assert_eq!(d.matching[1].driver_date.as_deref(), Some("09/16/2025"));
    assert_eq!(d.matching[1].driver_version.as_deref(), Some("10.75.1003.2025"));
    let installed = d.installed.as_ref().unwrap();
    assert_eq!(installed.inf_name, "oem12.inf");
    assert_eq!(installed.original_inf_name.as_deref(), Some("rt640x64.inf"));
    assert_eq!(installed.rank, Some(0x00FF0001));
}

#[test]
fn identity_only_output_is_degraded_but_full_mode_refuses_it() {
    let text = "Instance ID: USB\\VID_046D&PID_C52B\\5&1\nDevice Description: USB Receiver\nHardware IDs: USB\\VID_046D&PID_C52B&REV_1203\n              USB\\VID_046D&PID_C52B\n";
    let parsed = parse_enum_devices(text, EnumMode::IdentityOnly).unwrap();
    assert!(!parsed.complete);
    assert!(parsed.degraded);
    assert_eq!(parsed.devices[0].hardware_ids.len(), 2);
    assert_eq!(parsed.devices[0].installed, None);
    assert_eq!(
        parse_enum_devices(text, EnumMode::Full),
        Err(PnputilParseError::Malformed(
            "full enumeration output is missing properties sections".to_string()
        ))
    );
}

#[test]
fn degraded_output_takes_the_top_level_driver_name() {
    let text = "Instance ID: ACPI\\PNP0303\\4&1\nDriver Name: keyboard.inf\n";
    let parsed = parse_enum_devices(text, EnumMode::Degraded).unwrap();
    assert_eq!(parsed.devices[0].installed.as_ref().unwrap().inf_name, "keyboard.inf");
    assert_eq!(parsed.devices[0].installed.as_ref().unwrap().rank, None);
}

#[test]
fn enumeration_errors_fail_closed() {
    assert_eq!(parse_enum_devices("  \n\t ", EnumMode::Full), Err(PnputilParseError::EmptyInput));
    assert_eq!(
        parse_enum_devices("Instance ID: X\nBogus Label: y\n", EnumMode::Degraded),
        Err(PnputilParseError::Malformed("unexpected top-level label: Bogus Label".to_string()))
    );
    assert_eq!(
        parse_enum_devices("Instance ID: X\n", EnumMode::Degraded),
        Err(PnputilParseError::Malformed(
            "device block is truncated before any identity content".to_string()
        ))
    );
    assert_eq!(
        parse_enum_devices(
            "Instance ID: X\nDevice Description: d\nProperties:\n    DEVPKEY_Device_ProblemCode [UInt32]:\n",
            EnumMode::Full
        ),
        Err(PnputilParseError::Malformed("property header is missing its value".to_string()))
    );
    assert_eq!(
        parse_enum_devices(
            "Instance ID: X\nDevice Description: d\nMatching Drivers:\n    Driver Name: a.inf\n    Driver Status: Installed\n",
            EnumMode::IdentityOnly
        ),
        Err(PnputilParseError::Malformed("matching driver is missing a rank".to_string()))
    );
    assert_eq!(
        parse_enum_devices("Device Description: d\n", EnumMode::Degraded),
        Err(PnputilParseError::Malformed("description outside a device".to_string()))
    );
    assert_eq!(
        parse_enum_devices("Instance ID:   \n", EnumMode::Degraded),
        Err(PnputilParseError::MissingInstanceId)
    );
}
