use blake_bench::metadata::{format_flags, memory_gib_tenths, metadata_block, sort_names, HostInfo};
use blake_bench::text::text_before;

fn strings(names: &[&str]) -> Vec<String> {
    names.iter().map(|s| s.to_string()).collect()
}

#[test]
fn no_flags_are_unknown() {
    assert_eq!(format_flags(&vec![]), "unknown");
}

#[test]
fn flags_are_sorted_and_joined() {
    assert_eq!(format_flags(&strings(&["sse2", "avx", "avx2"])), "avx, avx2, sse2");
    assert_eq!(format_flags(&strings(&["neon"])), "neon");
    assert_eq!(format_flags(&strings(&["vxe2", "vx", "vxe"])), "vx, vxe, vxe2");
}

#[test]
fn repeated_flags_appear_once() {
    assert_eq!(format_flags(&strings(&["avx", "sse2", "avx", "avx", "sse2"])), "avx, sse2");
    assert_eq!(sort_names(&strings(&["b", "a", "b", "", "a"])), strings(&["", "a", "b"]));
}

#[test]
fn flags_sort_as_strings_do() {
    let detected = strings(&[
        "vx", "zarch", "esan3", "dfp", "ldisp", "eimm", "stfle", "msa", "highgprs", "te", "vxd",
        "vxe", "gs", "vxe2", "vxp", "sort", "dflt", "sie", "Éa", "é", "z", "Z", "a-b", "a_b", "ab",
        "vxe", "dfp",
    ]);
    let mut expected = detected.clone();
    expected.sort_unstable();
    expected.dedup();
    assert_eq!(sort_names(&detected), expected);
    assert_eq!(format_flags(&detected), expected.join(", "));
}

#[test]
fn text_order_is_string_order() {
    let words = ["", "a", "ab", "abc", "abd", "b", "B", "é", "z", "zz", "€", "avx", "avx2", "😀", "\u{ffff}"];
    for a in words {
        for b in words {
            assert_eq!(text_before(a, b), a < b, "{:?} {:?}", a, b);
        }
    }
}

#[test]
fn memory_is_rounded_to_tenths_of_a_gib() {
    assert_eq!(memory_gib_tenths(0), 0);
    assert_eq!(memory_gib_tenths(1 << 30), 10);
    assert_eq!(memory_gib_tenths(16 << 30), 160);
    assert_eq!(memory_gib_tenths((1 << 30) + (1 << 29)), 15);
    assert_eq!(memory_gib_tenths(8_239_235_072), 77);
    assert_eq!(memory_gib_tenths(u64::MAX), 171_798_691_840);
}

#[test]
fn memory_ties_go_to_the_even_tenth() {
    // A quarter of a GiB lies midway between 0.2 and 0.3, three quarters
    // between 0.7 and 0.8.
    assert_eq!(memory_gib_tenths(1 << 28), 2);
    assert_eq!(memory_gib_tenths(3 << 28), 8);
    assert_eq!(memory_gib_tenths((1 << 28) + 1), 3);
    assert_eq!(memory_gib_tenths((1 << 28) - 1), 2);
}

#[test]
fn memory_matches_floating_point_rendering() {
    let samples: [u64; 12] = [
        0,
        1,
        1 << 28,
        3 << 28,
        5 << 28,
        7 << 28,
        (1 << 30) - 1,
        1 << 30,
        8_239_235_072,
        16_777_216_000,
        68_719_476_736,
        1 << 50,
    ];
    for bytes in samples {
        let tenths = memory_gib_tenths(bytes);
        let text = format!("{}.{}", tenths / 10, tenths % 10);
        let float = bytes as f64 / (1024.0 * 1024.0 * 1024.0);
        assert_eq!(text, format!("{:.1}", float), "{}", bytes);
    }
}

#[test]
fn metadata_block_text() {
    let info = HostInfo {
        cpu_brand: "Example CPU @ 3.00GHz".to_string(),
        physical_cores: 8,
        logical_threads: 16,
        total_memory_bytes: 34_359_738_368,
        os_name: "Linux".to_string(),
        os_version: "6.1".to_string(),
        kernel_version: "6.1.0-13-amd64".to_string(),
        compiler_version: "1.80.0".to_string(),
        cpu_flags: strings(&["sse2", "avx", "avx2"]),
    };
    assert_eq!(
        metadata_block(&info),
        "**Host:** Example CPU @ 3.00GHz  \n\
         **Cores/Threads:** 8/16  \n\
         **Memory:** 32.0 GiB  \n\
         **OS:** Linux 6.1 (kernel 6.1.0-13-amd64)  \n\
         **Compiler:** rustc 1.80.0  \n\
         **Build:** portable | target-cpu=native  \n\
         **CPU flags:** avx, avx2, sse2  \n\n"
    );
}

#[test]
fn metadata_block_of_an_unknown_host() {
    let info = HostInfo {
        cpu_brand: String::new(),
        physical_cores: 0,
        logical_threads: 0,
        total_memory_bytes: 0,
        os_name: String::new(),
        os_version: String::new(),
        kernel_version: String::new(),
        compiler_version: String::new(),
        cpu_flags: vec![],
    };
    assert_eq!(
        metadata_block(&info),
        "**Host:**   \n**Cores/Threads:** 0/0  \n**Memory:** 0.0 GiB  \n**OS:**   (kernel )  \n\
         **Compiler:** rustc   \n**Build:** portable | target-cpu=native  \n\
         **CPU flags:** unknown  \n\n"
    );
}
