use skillsrs::isolation::SandboxError;
use skillsrs::sandbox::{SandboxBackend, SandboxConfig, SandboxConfigOverride, SandboxPreset};

#[test]
fn test_sandbox_config_default() {
    let config = SandboxConfig::default();

    assert_eq!(config.backend, SandboxBackend::Timeout);
    assert_eq!(config.timeout_ms, 30000);
    assert!(!config.allow_network);
    assert_eq!(config.max_memory_bytes, 512 * 1024 * 1024);
    assert_eq!(config.max_cpu_seconds, 30);
    assert!(config.allow_read.is_empty());
    assert!(config.allow_write.is_empty());
}

#[test]
fn test_sandbox_config_with_override() {
    let base = SandboxConfig::default();
    let override_config = SandboxConfigOverride {
        preset: None,
        timeout_ms: Some(60000),
        backend: Some(SandboxBackend::Wasm),
        ..Default::default()
    };

    let merged = base.with_override(&override_config);

    assert_eq!(merged.timeout_ms, 60000);
    assert_eq!(merged.backend, SandboxBackend::Wasm);
    assert!(!merged.allow_network);
}

#[test]
fn test_sandbox_config_with_full_override() {
    let base = SandboxConfig::default();
    let override_config = SandboxConfigOverride {
        preset: None,
        timeout_ms: Some(120000),
        backend: Some(SandboxBackend::Restricted),
        allow_network: Some(true),
        max_memory_bytes: Some(1024 * 1024 * 1024),
        max_cpu_seconds: Some(60),
        allow_read: vec!["/home/user/projects".to_string()],
        allow_write: vec!["/tmp".to_string()],
    };

    let merged = base.with_override(&override_config);

    assert_eq!(merged.timeout_ms, 120000);
    assert_eq!(merged.backend, SandboxBackend::Restricted);
    assert!(merged.allow_network);
    assert_eq!(merged.max_memory_bytes, 1024 * 1024 * 1024);
    assert_eq!(merged.max_cpu_seconds, 60);
    assert_eq!(merged.allow_read.len(), 1);
    assert_eq!(merged.allow_write.len(), 1);
}

#[test]
fn test_sandbox_config_for_tool() {
    let base = SandboxConfig::default();

    let server_override = SandboxConfigOverride {
        preset: None,
        timeout_ms: Some(45000),
        allow_network: Some(true),
        ..Default::default()
    };

    let tool_override = SandboxConfigOverride {
        preset: None,
        timeout_ms: Some(90000),
        max_memory_bytes: Some(1024 * 1024 * 1024),
        ..Default::default()
    };

    let merged = base.for_tool(Some(&tool_override), Some(&server_override));

    assert_eq!(merged.timeout_ms, 90000);
    assert!(merged.allow_network);
    assert_eq!(merged.max_memory_bytes, 1024 * 1024 * 1024);
    assert_eq!(merged.backend, SandboxBackend::Timeout);
}

#[test]
fn test_sandbox_config_for_tool_only() {
    let base = SandboxConfig::default();

    let tool_override = SandboxConfigOverride {
        preset: None,
        backend: Some(SandboxBackend::Wasm),
        ..Default::default()
    };

    let merged = base.for_tool(Some(&tool_override), None);

    assert_eq!(merged.backend, SandboxBackend::Wasm);
    assert_eq!(merged.timeout_ms, 30000);
}

#[test]
fn test_sandbox_config_for_server_only() {
    let base = SandboxConfig::default();

    let server_override = SandboxConfigOverride {
        preset: None,
        backend: Some(SandboxBackend::Bubblewrap),
        ..Default::default()
    };

    let merged = base.for_tool(None, Some(&server_override));

    assert_eq!(merged.backend, SandboxBackend::Bubblewrap);
    assert_eq!(merged.timeout_ms, 30000);
}

#[test]
fn test_sandbox_config_for_tool_precedence() {
    let base = SandboxConfig::default();

    let server_override = SandboxConfigOverride {
        preset: None,
        timeout_ms: Some(60000),
        max_memory_bytes: Some(512 * 1024 * 1024),
        ..Default::default()
    };

    let tool_override = SandboxConfigOverride {
        preset: None,
        timeout_ms: Some(120000),
        max_memory_bytes: Some(2048 * 1024 * 1024),
        ..Default::default()
    };

    let merged = base.for_tool(Some(&tool_override), Some(&server_override));

    assert_eq!(merged.timeout_ms, 120000);
    assert_eq!(merged.max_memory_bytes, 2048 * 1024 * 1024);
}

#[test]
fn test_sandbox_config_override_empty() {
    let base = SandboxConfig::default();
    let empty_override = SandboxConfigOverride::default();

    let merged = base.with_override(&empty_override);

    assert_eq!(merged.backend, SandboxBackend::Timeout);
    assert_eq!(merged.timeout_ms, 30000);
    assert!(!merged.allow_network);
}

#[test]
fn test_sandbox_config_chained_overrides() {
    let base = SandboxConfig::default();

    let first = SandboxConfigOverride {
        preset: None,
        timeout_ms: Some(60000),
        backend: Some(SandboxBackend::Restricted),
        ..Default::default()
    };

    let second = SandboxConfigOverride {
        preset: None,
        timeout_ms: Some(90000),
        allow_network: Some(true),
        ..Default::default()
    };

    let merged1 = base.with_override(&first);
    assert_eq!(merged1.timeout_ms, 60000);
    assert_eq!(merged1.backend, SandboxBackend::Restricted);
    assert!(!merged1.allow_network);

    let merged2 = merged1.with_override(&second);
    assert_eq!(merged2.timeout_ms, 90000);
    assert_eq!(merged2.backend, SandboxBackend::Restricted);
    assert!(merged2.allow_network);
}

#[test]
fn test_sandbox_config_path_merging() {
    let base = SandboxConfig {
        allow_read: vec!["/base/read".to_string()],
        allow_write: vec!["/base/write".to_string()],
        ..Default::default()
    };

    let override_config = SandboxConfigOverride {
        preset: None,
        allow_read: vec!["/override/read".to_string()],
        allow_write: vec!["/override/write".to_string()],
        ..Default::default()
    };

    let merged = base.with_override(&override_config);

    assert_eq!(merged.allow_read.len(), 2);
    assert_eq!(merged.allow_write.len(), 2);
    assert!(merged.allow_read.contains(&"/base/read".to_string()));
    assert!(merged.allow_read.contains(&"/override/read".to_string()));
}

#[test]
fn test_sandbox_error_display() {
    let errors = vec![
        SandboxError::ExecutionFailed("test error".to_string()),
        SandboxError::Timeout(5000),
        SandboxError::NotAvailable("feature not available".to_string()),
        SandboxError::InvalidConfig("bad config".to_string()),
    ];

    for error in errors {
        let msg = error.message();
        assert!(!msg.is_empty());
    }
}

#[test]
fn test_sandbox_error_from_io() {
    let io_error = std::io::Error::new(std::io::ErrorKind::NotFound, "file not found");
    let sandbox_error = SandboxError::Io(io_error.to_string());

    assert!(matches!(sandbox_error, SandboxError::Io(_)));
    assert_eq!(sandbox_error.message(), "IO error: file not found");
}

#[test]
fn sandbox_error_messages_are_exact() {
    assert_eq!(SandboxError::Timeout(5000).message(), "Timeout exceeded: 5000ms");
    assert_eq!(
        SandboxError::ExecutionFailed("boom".to_string()).message(),
        "Sandbox execution failed: boom"
    );
    assert_eq!(
        SandboxError::NotAvailable("docker".to_string()).message(),
        "Sandbox not available: docker"
    );
    assert_eq!(
        SandboxError::InvalidConfig("bad".to_string()).message(),
        "Invalid configuration: bad"
    );
}

#[test]
fn preset_override_replaces_base_then_fields_apply() {
    let base = SandboxConfig {
        allow_network: true,
        timeout_ms: 1,
        ..Default::default()
    };
    let strict = SandboxConfigOverride {
        preset: Some(SandboxPreset::Strict),
        timeout_ms: Some(5000),
        ..Default::default()
    };
    let merged = base.with_override(&strict);
    assert_eq!(merged.backend, SandboxBackend::Bubblewrap);
    assert_eq!(merged.timeout_ms, 5000);
    assert!(!merged.allow_network);
    assert_eq!(merged.max_memory_bytes, 256 * 1024 * 1024);
}

#[test]
fn tool_preset_resets_server_settings() {
    let base = SandboxConfig::default();
    let server = SandboxConfigOverride {
        allow_network: Some(true),
        allow_read: vec!["/srv".to_string()],
        ..Default::default()
    };
    let tool = SandboxConfigOverride::from_preset(SandboxPreset::Wasm);
    let merged = base.for_tool(Some(&tool), Some(&server));
    assert_eq!(merged.backend, SandboxBackend::Wasm);
    assert!(!merged.allow_network);
    assert!(merged.allow_read.is_empty());
}

#[test]
fn backend_names() {
    assert_eq!(SandboxBackend::Unsandboxed.name(), "none");
    assert_eq!(SandboxBackend::Timeout.name(), "timeout");
    assert_eq!(SandboxBackend::Restricted.name(), "restricted");
    assert_eq!(SandboxBackend::Bubblewrap.name(), "bubblewrap");
    assert_eq!(SandboxBackend::Docker.name(), "docker");
    assert_eq!(SandboxBackend::Wasm.name(), "wasm");
}

#[test]
fn presets_carry_their_settings() {
    let dev = SandboxPreset::Development.to_config();
    assert_eq!(dev.backend, SandboxBackend::Timeout);
    assert_eq!(dev.timeout_ms, 60000);
    assert!(dev.allow_network);
    assert_eq!(dev.max_memory_bytes, 1024 * 1024 * 1024);
    assert_eq!(dev.docker.network_mode, "bridge");
    assert_eq!(dev.docker.memory_limit, 1024 * 1024 * 1024);
    let strict = SandboxPreset::Strict.to_config();
    assert_eq!(strict.backend, SandboxBackend::Bubblewrap);
    assert_eq!(strict.timeout_ms, 10000);
    assert!(!strict.allow_network);
    assert_eq!(strict.max_memory_bytes, 256 * 1024 * 1024);
    assert_eq!(strict.max_cpu_seconds, 10);
    let isolated = SandboxPreset::Isolated.to_config();
    assert_eq!(isolated.backend, SandboxBackend::Docker);
    assert_eq!(isolated.docker.cpu_millis, 500);
    assert_eq!(isolated.docker.network_mode, "none");
    let network = SandboxPreset::Network.to_config();
    assert_eq!(network.backend, SandboxBackend::Restricted);
    assert!(network.allow_network);
    assert_eq!(network.docker.network_mode, "bridge");
    let fs = SandboxPreset::Filesystem.to_config();
    assert_eq!(fs.backend, SandboxBackend::Restricted);
    assert!(fs.allow_read.is_empty() && fs.allow_write.is_empty());
    let wasm = SandboxPreset::Wasm.to_config();
    assert_eq!(wasm.backend, SandboxBackend::Wasm);
    assert_eq!(wasm.max_memory_bytes, 256 * 1024 * 1024);
    let standard = SandboxPreset::Standard.to_config();
    let default = SandboxConfig::default();
    assert_eq!(standard.backend, default.backend);
    assert_eq!(standard.timeout_ms, 30000);
    assert_eq!(standard.docker.image, "alpine:latest");
    assert_eq!(standard.docker.memory_limit, 256 * 1024 * 1024);
    assert_eq!(standard.docker.cpu_millis, 1000);
    assert_eq!(standard.docker.working_dir, "/workspace");
    let paths = SandboxConfig::filesystem(vec!["/r".to_string()], vec!["/w".to_string()]);
    assert_eq!(paths.allow_read, vec!["/r".to_string()]);
    assert_eq!(paths.allow_write, vec!["/w".to_string()]);
}
