use skillsrs::isolation::WasmModuleInfo;

#[test]
fn wasm_test_wasm_module_info() {
    let info = WasmModuleInfo {
        imports: vec![],
        exports: vec!["memory".to_string(), "run".to_string()],
        has_run_export: true,
        has_memory_export: true,
    };
    assert!(info.has_run_export);
    assert!(info.has_memory_export);
}

#[test]
fn wasm_sandbox_test_test_wasm_module_info() {
    let info = WasmModuleInfo {
        imports: vec!["env".to_string(), "wasi_snapshot_preview1".to_string()],
        exports: vec!["memory".to_string(), "run".to_string(), "init".to_string()],
        has_run_export: true,
        has_memory_export: true,
    };

    assert_eq!(info.imports.len(), 2);
    assert_eq!(info.exports.len(), 3);
    assert!(info.has_run_export);
    assert!(info.has_memory_export);
    assert!(info.exports.contains(&"run".to_string()));
    assert!(info.exports.contains(&"memory".to_string()));
}

#[test]
fn module_info_from_names_finds_required_exports() {
    let info = WasmModuleInfo::from_names(
        vec!["env".to_string()],
        vec!["memory".to_string(), "run".to_string()],
    );
    assert!(info.has_run_export);
    assert!(info.has_memory_export);
    let info = WasmModuleInfo::from_names(vec![], vec!["init".to_string()]);
    assert!(!info.has_run_export);
    assert!(!info.has_memory_export);
}

#[test]
fn timed_out_runs_say_so() {
    let r = skillsrs::isolation::process_timeout_result(1500);
    assert_eq!(r.stdout, "");
    assert_eq!(r.stderr, "Execution timed out");
    assert_eq!(r.exit_code, None);
    assert_eq!(r.duration_ms, 1500);
    assert!(r.timed_out);
    let w = skillsrs::isolation::wasm_timeout_result(20);
    assert_eq!(w.stderr, "WASM execution timed out");
    assert!(w.timed_out);
    let f = skillsrs::isolation::wasm_out_of_fuel_result(30000);
    assert_eq!(f.stderr, "Execution ran out of fuel (CPU limit exceeded)");
    assert_eq!(f.duration_ms, 30000);
    assert!(f.timed_out);
}

#[test]
fn fuel_follows_the_cpu_limit() {
    assert_eq!(skillsrs::isolation::wasm_fuel_limit(0), None);
    assert_eq!(skillsrs::isolation::wasm_fuel_limit(1), Some(10_000_000_000));
    assert_eq!(skillsrs::isolation::wasm_fuel_limit(30), Some(300_000_000_000));
}
