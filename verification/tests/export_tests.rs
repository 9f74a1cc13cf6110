use seer::monitor::export::{ExportError, ExportFormat, Exporter};

#[test]
fn test_export_format_from_str() {
    assert!(matches!(ExportFormat::from_str("json").unwrap(), ExportFormat::Json));
    assert!(matches!(ExportFormat::from_str("JSON").unwrap(), ExportFormat::Json));
    assert!(matches!(ExportFormat::from_str("csv").unwrap(), ExportFormat::Csv));
    assert!(matches!(ExportFormat::from_str("toml").unwrap(), ExportFormat::Toml));

    assert!(ExportFormat::from_str("invalid").is_err());
}

#[test]
fn test_export_format_extension() {
    assert_eq!(ExportFormat::Json.extension(), "json");
    assert_eq!(ExportFormat::Csv.extension(), "csv");
    assert_eq!(ExportFormat::Toml.extension(), "toml");
}

#[test]
fn test_generate_default_filename() {
    let json_filename = Exporter::generate_default_filename(&ExportFormat::Json);
    assert!(json_filename.starts_with("seer_export_"));
    assert!(json_filename.ends_with(".json"));

    let csv_filename = Exporter::generate_default_filename(&ExportFormat::Csv);
    assert!(csv_filename.ends_with(".csv"));

    let toml_filename = Exporter::generate_default_filename(&ExportFormat::Toml);
    assert!(toml_filename.ends_with(".toml"));
}

#[test]
fn test_path_validation_security() {
    let cwd = "/home/user/project";
    // Test valid current directory paths
    assert!(Exporter::validate_export_path("./test.json", cwd).is_ok());
    assert!(Exporter::validate_export_path("subdir/test.json", cwd).is_ok());

    // Test path traversal attacks should be rejected
    assert!(Exporter::validate_export_path("../../../etc/passwd", cwd).is_err());
    assert!(Exporter::validate_export_path("../../sensitive.txt", cwd).is_err());

    // Test absolute system paths should be rejected
    assert!(Exporter::validate_export_path("/etc/passwd", cwd).is_err());
    assert!(Exporter::validate_export_path("/proc/version", cwd).is_err());
    assert!(Exporter::validate_export_path("/sys/kernel/version", cwd).is_err());
}

#[test]
fn export_format_from_str_mixed_case_and_error_text() {
    assert_eq!(ExportFormat::from_str("Toml").unwrap(), ExportFormat::Toml);
    assert_eq!(ExportFormat::from_str("CsV").unwrap(), ExportFormat::Csv);
    match ExportFormat::from_str("xml") {
        Err(e) => {
            assert!(matches!(e, ExportError::UnsupportedFormat(ref s) if s == "xml"));
            assert_eq!(e.message(), "Unsupported export format: xml");
        }
        Ok(_) => panic!("xml is not a format"),
    }
    assert!(ExportFormat::from_str("").is_err());
    assert!(ExportFormat::from_str(" json").is_err());
}

#[test]
fn export_format_from_lowercase_takes_only_lower_case() {
    assert_eq!(ExportFormat::from_lowercase("json"), Some(ExportFormat::Json));
    assert_eq!(ExportFormat::from_lowercase("JSON"), None);
}

#[test]
fn extension_names_its_format_again() {
    for f in [ExportFormat::Json, ExportFormat::Csv, ExportFormat::Toml] {
        assert_eq!(ExportFormat::from_str(f.extension()).unwrap(), f);
    }
}

#[test]
fn default_filename_is_prefix_stamp_and_extension() {
    assert_eq!(
        Exporter::default_filename("20240115_103000", &ExportFormat::Csv),
        "seer_export_20240115_103000.csv"
    );
    let name = Exporter::generate_default_filename(&ExportFormat::Json);
    assert_eq!(name.len(), "seer_export_".len() + 15 + ".json".len());
    let stamp: Vec<char> = name["seer_export_".len().."seer_export_".len() + 15].chars().collect();
    assert_eq!(stamp[8], '_');
    assert!(stamp.iter().enumerate().all(|(i, c)| i == 8 || c.is_ascii_digit()));
}

#[test]
fn export_path_errors_carry_the_path() {
    let cwd = "/home/user/project";
    match Exporter::validate_export_path("../x.json", cwd) {
        Err(e) => {
            assert!(matches!(e, ExportError::PathTraversal(ref p) if p == "../x.json"));
            assert_eq!(e.message(), "Path traversal detected: ../x.json");
        }
        Ok(_) => panic!("traversal accepted"),
    }
    match Exporter::validate_export_path("/tmp/out.json", cwd) {
        Err(e) => {
            assert!(matches!(e, ExportError::OutsideCurrentDirectory(ref p) if p == "/tmp/out.json"));
            assert_eq!(e.message(), "Export path must be within current directory: /tmp/out.json");
        }
        Ok(_) => panic!("outside path accepted"),
    }
    assert!(Exporter::validate_export_path("/home/user/project/sub/out.json", cwd).is_ok());
    assert!(Exporter::validate_export_path("/home/user/projectx/out.json", cwd).is_err());
    assert!(Exporter::validate_export_path("/home/user//project/./out.json", cwd).is_ok());
}

#[test]
fn export_path_under_system_directory_is_refused() {
    match Exporter::validate_export_path("/etc/app/report.json", "/etc/app") {
        Err(e) => {
            assert!(matches!(e, ExportError::SystemDirectory(ref p) if p == "/etc/app/report.json"));
            assert_eq!(e.message(), "Cannot export to system directory: /etc/app/report.json");
        }
        Ok(_) => panic!("system directory accepted"),
    }
    assert!(Exporter::validate_export_path("/ETC/r.json", "/ETC").is_err());
    assert!(Exporter::validate_export_path("/etcetera/r.json", "/etcetera").is_err());
    assert!(Exporter::validate_export_path("/r.json", "/").is_ok());
    assert!(Exporter::validate_export_path("./test.json", "/root/workspace").is_ok());
    assert!(Exporter::validate_export_path("report.json", "/etc/app").is_ok());
}

#[test]
fn export_error_messages() {
    assert_eq!(
        ExportError::EscapesCurrentDirectory("a".to_string()).message(),
        "Export path escapes current directory: a"
    );
}
