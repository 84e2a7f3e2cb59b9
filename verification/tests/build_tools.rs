use rustycore::config::{
    build_variable, build_variables, parse_bytes, parse_kib, parse_line, parse_size,
    size_variable, variable_name, write_decimal,
};
use rustycore::xtask::{
    cargo_args, image_path, kernel_elf_path, parse_args, qemu_args, Action, Invocation,
};

fn args(words: &[&str]) -> Vec<String> {
    words.iter().map(|w| String::from(*w)).collect()
}

fn pair(k: &str, v: &str) -> Option<(String, String)> {
    Some((String::from(k), String::from(v)))
}

#[test]
fn config_lines() {
    assert_eq!(parse_line("stack_size = \"128K\""), pair("stack_size", "128K"));
    assert_eq!(parse_line("  heap-size.kb=1024  "), pair("heap_size_kb", "1024"));
    assert_eq!(parse_line("a = b = c"), pair("a", "b = c"));
    assert_eq!(parse_line("empty ="), pair("empty", ""));
    assert_eq!(parse_line("= v"), pair("", "v"));
    assert_eq!(parse_line("q = \"\"x\"\""), pair("q", "x"));
    assert_eq!(parse_line("q = \" x \""), pair("q", " x "));
    assert_eq!(parse_line("\u{3000}k\u{2003}=\u{a0}v\u{85}"), pair("k", "v"));
}

#[test]
fn config_noise() {
    assert_eq!(parse_line(""), None);
    assert_eq!(parse_line("   \t"), None);
    assert_eq!(parse_line("# a = b"), None);
    assert_eq!(parse_line("  [section = x]"), None);
    assert_eq!(parse_line("no equals sign"), None);
}

#[test]
fn variable_of_a_line() {
    assert_eq!(
        build_variable("heap-size.bytes = \"1048576\""),
        pair("KERNEL_CONFIG_HEAP_SIZE_BYTES", "1048576")
    );
    assert_eq!(build_variable("stra\u{df}e = 1"), pair("KERNEL_CONFIG_STRASSE", "1"));
    assert_eq!(build_variable("# nothing"), None);
    assert_eq!(variable_name("X"), "KERNEL_CONFIG_X");
}

fn list(pairs: &[(&str, &str)]) -> Option<Vec<(String, String)>> {
    Some(pairs.iter().map(|(k, v)| (String::from(*k), String::from(*v))).collect())
}

#[test]
fn variables_of_a_text() {
    let text = "# sizes\r\n[kernel]\r\nheap_size_kb = 1024\r\n\nself-test = \"true\"\nstack_size = \"128K\"";
    assert_eq!(
        build_variables(text),
        list(&[
            ("KERNEL_CONFIG_HEAP_SIZE_KB", "1024"),
            ("KERNEL_CONFIG_HEAP_SIZE_BYTES", "1048576"),
            ("KERNEL_CONFIG_SELF_TEST", "true"),
            ("KERNEL_CONFIG_STACK_SIZE", "128K"),
            ("KERNEL_CONFIG_STACK_SIZE_BYTES", "131072"),
        ])
    );
    assert_eq!(build_variables(""), list(&[]));
    assert_eq!(build_variables("\n"), list(&[]));
    assert_eq!(build_variables("stra\u{df}e = \u{e4}"), list(&[("KERNEL_CONFIG_STRASSE", "\u{e4}")]));
}

#[test]
fn lines_end_with_a_line_feed() {
    assert_eq!(
        build_variables("a = \"1\r\"\nb = 2\r3\r\n\r\nc = 4\n"),
        list(&[
            ("KERNEL_CONFIG_A", "1\r"),
            ("KERNEL_CONFIG_B", "2\r3"),
            ("KERNEL_CONFIG_C", "4"),
        ])
    );
}

#[test]
fn a_size_that_makes_no_sense_stops_the_build() {
    assert_eq!(build_variables("a = 1\nheap_size_kb = much\nb = 2"), None);
    assert_eq!(build_variables("stack_size = 128k"), None);
    assert_eq!(build_variables("stack_size = \u{661}"), None);
    assert_eq!(build_variables("stack_size = 99999999999999999999K"), None);
}

#[test]
fn sizes_survive_the_build() {
    for n in [0usize, 7, 10, 131_072, 1_048_576, usize::MAX] {
        assert_eq!(write_decimal(n), format!("{n}"));
        assert_eq!(parse_bytes(write_decimal(n).as_bytes()), Some(n));
    }
}

#[test]
fn byte_counts() {
    assert_eq!(parse_bytes(b"1048576"), Some(1_048_576));
    assert_eq!(parse_bytes(b"131072"), Some(131_072));
    assert_eq!(parse_bytes(b""), Some(0));
    assert_eq!(parse_bytes(b"007"), Some(7));
    assert_eq!(parse_bytes(b"128K"), None);
    assert_eq!(parse_bytes(b"-1"), None);
    assert_eq!(parse_bytes(b"99999999999999999999999"), None);
}

#[test]
fn command_lines() {
    assert_eq!(
        parse_args(&args(&["build"])),
        Some(Invocation { action: Action::Build, release: false })
    );
    assert_eq!(
        parse_args(&args(&["image", "x", "--release"])),
        Some(Invocation { action: Action::Image, release: true })
    );
    assert_eq!(
        parse_args(&args(&["run-qemu", "--release"])),
        Some(Invocation { action: Action::RunQemu, release: true })
    );
    assert_eq!(parse_args(&args(&["--release", "build"])), None);
    assert_eq!(parse_args(&args(&[])), None);
}

#[test]
fn build_paths() {
    assert_eq!(
        kernel_elf_path(false),
        ["target", "x86_64-unknown-none", "debug", "rustycore-kernel"]
    );
    assert_eq!(
        image_path(true),
        ["target", "x86_64-unknown-none", "release", "rustycore-bios.img"]
    );
}

#[test]
fn tool_arguments() {
    assert_eq!(
        cargo_args(false),
        vec!["build", "-p", "rustycore-kernel", "--target", "x86_64-unknown-none"]
    );
    assert_eq!(cargo_args(true)[5], "--release");
    let q = qemu_args("a.img");
    assert_eq!(q.len(), 15);
    assert_eq!(q[0], "-machine");
    assert_eq!(q[11], "-drive");
    assert_eq!(q[12], "format=raw,file=a.img");
    assert_eq!(q[14], "-no-shutdown");
}

#[test]
fn configured_sizes() {
    assert_eq!(parse_kib(b"1024"), Some(1_048_576));
    assert_eq!(parse_kib(b"1K"), None);
    assert_eq!(parse_kib(b"99999999999999999999"), None);
    assert_eq!(parse_size(b"128K"), Some(131_072));
    assert_eq!(parse_size(b"131072"), Some(131_072));
    assert_eq!(parse_size(b"K"), Some(0));
    assert_eq!(parse_size(b"12k"), None);
    assert_eq!(parse_size(b"KK"), None);
    assert_eq!(
        size_variable("heap_size_kb", b"1024"),
        Some(("KERNEL_CONFIG_HEAP_SIZE_BYTES", Some(1_048_576)))
    );
    assert_eq!(
        size_variable("stack_size", b"128K"),
        Some(("KERNEL_CONFIG_STACK_SIZE_BYTES", Some(131_072)))
    );
    assert_eq!(
        size_variable("heap_size_kb", b"much"),
        Some(("KERNEL_CONFIG_HEAP_SIZE_BYTES", None))
    );
    assert_eq!(size_variable("self_test", b"true"), None);
}
