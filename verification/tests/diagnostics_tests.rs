use taurin::diagnostics::{
    command_output_summary, cpuinfo_model_name, meminfo_total_kb, os_release_pretty_name,
};

#[test]
fn os_release_pretty_name_reads_the_value() {
    let text = "NAME=\"Ubuntu\"\nPRETTY_NAME=\"Ubuntu 22.04.4 LTS\"\nVERSION_ID=\"22.04\"\n";
    assert_eq!(os_release_pretty_name(text), Some("Ubuntu 22.04.4 LTS".to_string()));
    assert_eq!(os_release_pretty_name("PRETTY_NAME=Arch Linux"), Some("Arch Linux".to_string()));
    assert_eq!(os_release_pretty_name("PRETTY_NAME=\"\"\"x\"\""), Some("x".to_string()));
    assert_eq!(os_release_pretty_name("NAME=x\n"), None);
    assert_eq!(os_release_pretty_name(" PRETTY_NAME=x"), None);
    assert_eq!(os_release_pretty_name("PRETTY_NAME=\"Debian\"\r\n"), Some("Debian".to_string()));
}

#[test]
fn cpuinfo_model_name_reads_the_first_model() {
    let text = "processor\t: 0\nvendor_id\t: GenuineIntel\nmodel name\t: Intel(R) Core(TM) i7 CPU @ 2.80GHz\nmodel name\t: second\n";
    assert_eq!(cpuinfo_model_name(text), Some("Intel(R) Core(TM) i7 CPU @ 2.80GHz".to_string()));
    assert_eq!(cpuinfo_model_name("model name without colon\nmodel name: x"), None);
    assert_eq!(cpuinfo_model_name("processor: 0"), None);
    assert_eq!(cpuinfo_model_name("model name:"), Some(String::new()));
}

#[test]
fn meminfo_total_reads_the_first_word() {
    let text = "MemTotal:       16314336 kB\nMemFree:         1234 kB\n";
    assert_eq!(meminfo_total_kb(text), Some("16314336".to_string()));
    assert_eq!(meminfo_total_kb("MemTotal:"), None);
    assert_eq!(meminfo_total_kb("MemTotal:    \n"), None);
    assert_eq!(meminfo_total_kb("MemFree: 1 kB"), None);
}

#[test]
fn command_output_is_summarized() {
    assert_eq!(command_output_summary(b"  a \n\n b\r\n"), Some("a; b".to_string()));
    assert_eq!(command_output_summary(b"2024-01-02 03:04:05 +0900\n"), Some("2024-01-02 03:04:05 +0900".to_string()));
    assert_eq!(command_output_summary(b"one\ntwo\nthree"), Some("one; two; three".to_string()));
    assert_eq!(command_output_summary(b"\n \n\t\n"), None);
    assert_eq!(command_output_summary(b""), None);
}

#[test]
fn command_output_replaces_invalid_bytes() {
    assert_eq!(command_output_summary(b"GPU \xff\n"), Some("GPU \u{FFFD}".to_string()));
}
