use sak::linux::cpuinfo::{build_json, format_row, parse_cpuinfo, CpuRecord};
use sak::value::Json;

const X86_CPUINFO: &str = "\
processor\t: 0
vendor_id\t: GenuineIntel
cpu family\t: 6
model\t\t: 142
model name\t: Intel(R) Core(TM) i7-8650U CPU @ 1.90GHz
stepping\t: 10
cpu MHz\t\t: 800.000
cache size\t: 8192 KB
physical id\t: 0
siblings\t: 8
core id\t\t: 0
cpu cores\t: 4
flags\t\t: fpu vme de pse tsc msr pae

processor\t: 1
vendor_id\t: GenuineIntel
cpu family\t: 6
model\t\t: 142
model name\t: Intel(R) Core(TM) i7-8650U CPU @ 1.90GHz
stepping\t: 10
cpu MHz\t\t: 900.000
cache size\t: 8192 KB
physical id\t: 0
siblings\t: 8
core id\t\t: 1
cpu cores\t: 4
flags\t\t: fpu vme de pse tsc msr pae sse sse2
";

const AARCH64_CPUINFO: &str = "\
processor\t: 0
BogoMIPS\t: 50.00
Features\t: fp asimd evtstrm aes pmull sha1 sha2 crc32
CPU implementer\t: 0x41
CPU architecture: 8
CPU variant\t: 0x0
CPU part\t: 0xd08
CPU revision\t: 3

processor\t: 1
BogoMIPS\t: 50.00
Features\t: fp asimd evtstrm aes pmull sha1 sha2 crc32 cpuid
CPU implementer\t: 0x41
CPU architecture: 8
CPU variant\t: 0x0
CPU part\t: 0xd08
CPU revision\t: 3
";

#[test]
fn parses_x86_block_with_full_field_set() {
    let recs = parse_cpuinfo(X86_CPUINFO);
    assert_eq!(recs.len(), 2);
    let c0 = &recs[0];
    assert_eq!(c0.cpu, "0");
    assert_eq!(c0.vendor, "GenuineIntel");
    assert_eq!(c0.model_name, "Intel(R) Core(TM) i7-8650U CPU @ 1.90GHz");
    assert_eq!(c0.mhz, "800.000");
    assert_eq!(c0.cache_kb, "8192");
    assert_eq!(c0.cores, "4");
    assert_eq!(c0.siblings, "8");
    assert_eq!(c0.flags.len(), 7);
    assert_eq!(recs[1].cpu, "1");
    assert_eq!(recs[1].flags.len(), 9);
}

#[test]
fn parses_aarch64_block_with_missing_fields_as_dash() {
    let recs = parse_cpuinfo(AARCH64_CPUINFO);
    assert_eq!(recs.len(), 2);
    let c0 = &recs[0];
    assert_eq!(c0.cpu, "0");
    assert_eq!(c0.vendor, "-");
    assert_eq!(c0.model_name, "-");
    assert_eq!(c0.mhz, "-");
    assert_eq!(c0.cache_kb, "-");
    assert_eq!(c0.cores, "-");
    assert_eq!(c0.siblings, "-");
    // Flags come from the aarch64 `Features` line.
    assert_eq!(c0.flags.len(), 8);
    assert_eq!(c0.flags[0], "fp");
}

#[test]
fn falls_back_to_ordinal_when_processor_field_missing() {
    let input = "vendor_id\t: GenuineIntel\nflags\t: fpu\n";
    let recs = parse_cpuinfo(input);
    assert_eq!(recs.len(), 1);
    assert_eq!(recs[0].cpu, "0");
}

#[test]
fn tsv_default_row_uses_flag_count() {
    let recs = parse_cpuinfo(X86_CPUINFO);
    assert_eq!(
        format_row(&recs[0], false),
        "0\tGenuineIntel\tIntel(R) Core(TM) i7-8650U CPU @ 1.90GHz\t800.000\t8192\t4\t8\t7"
    );
}

#[test]
fn tsv_full_row_uses_flag_list() {
    let recs = parse_cpuinfo(X86_CPUINFO);
    let row = format_row(&recs[0], true);
    assert!(row.ends_with("\tfpu vme de pse tsc msr pae"));
}

#[test]
fn full_row_renders_dash_for_empty_flags() {
    let rec = CpuRecord {
        cpu: "0".into(),
        vendor: "-".into(),
        model_name: "-".into(),
        mhz: "-".into(),
        cache_kb: "-".into(),
        cores: "-".into(),
        siblings: "-".into(),
        flags: vec![],
    };
    assert!(format_row(&rec, true).ends_with("\t-"));
}

#[test]
fn json_omits_flags_array_unless_full() {
    let recs = parse_cpuinfo(AARCH64_CPUINFO);
    let compact = build_json(&recs[0], false);
    assert!(compact.get("flags").is_none());
    assert_eq!(compact.get("flags_count").and_then(Json::as_u64), Some(8));

    let full = build_json(&recs[0], true);
    assert_eq!(full.get("flags").unwrap().as_array().unwrap().len(), 8);
}
