use ext_host::api::Commands;
use ext_host::builder::{BuildArtifact, BuildError, BuildStep, ExtensionBuilder};
use ext_host::host::{ComponentHost, GuestOutcome, HostError};
use ext_host::manifest::{CommandManifest, ContributesManifest, ExtensionManifest};
use ext_host::registry::{CommandRegistry, RegistryError};

fn manifest_with_commands(name: &str, ids: &[&str]) -> ExtensionManifest {
    let commands = ids
        .iter()
        .map(|id| CommandManifest {
            command: id.to_string(),
            title: "Some Command".to_string(),
            subtitle: None,
            description: "does something useful".to_string(),
            icon: None,
            disabled_by_default: None,
        })
        .collect();
    ExtensionManifest {
        name: name.to_string(),
        title: "Title".to_string(),
        version: "1.0.0".to_string(),
        publisher: "acme1".to_string(),
        license: "MIT".to_string(),
        description: "a longer description".to_string(),
        icon: "icon.png".to_string(),
        contributes: ContributesManifest {
            commands: Some(commands),
            command_palettes: None,
            icons: None,
            icon_themes: None,
            keybindings: None,
            preferences: None,
            themes: None,
            views: None,
        },
    }
}

#[test]
fn fingerprint_is_deterministic() {
    let source = vec![1u8, 2, 3, 4];
    let toolchain = b"wasm32-wasip1/1.80".to_vec();
    let a = ExtensionBuilder::compute_fingerprint(&source, &toolchain);
    let b = ExtensionBuilder::compute_fingerprint(&source, &toolchain);
    assert_eq!(a, b);
}

#[test]
fn relative_source_dir_is_rejected() {
    let mut b = ExtensionBuilder::new("/cache".to_string());
    assert_eq!(b.request_build("relative/dir", 7), BuildStep::Reject);
    let m = manifest_with_commands("some-ext", &["foo"]);
    assert_eq!(
        b.compile_extension("relative/dir", &m, 7),
        Err(BuildError::InvalidInput)
    );
    assert_eq!(b.compile_extension("/abs/dir", &m, 7), Ok(BuildStep::StartCompile));
}

#[test]
fn second_build_hits_cache_without_compiling() {
    let mut b = ExtensionBuilder::new("/cache".to_string());
    let fp = ExtensionBuilder::compute_fingerprint(&vec![1, 2, 3], &vec![9]);
    assert_eq!(b.request_build("/src", fp), BuildStep::StartCompile);
    b.stage_artifact(BuildArtifact { fingerprint: fp, module: vec![0, 97, 115, 109] });
    b.publish(fp);
    // identical inputs: identical fingerprint, answered from the cache
    let fp2 = ExtensionBuilder::compute_fingerprint(&vec![1, 2, 3], &vec![9]);
    assert_eq!(fp2, fp);
    assert_eq!(b.request_build("/src", fp2), BuildStep::CacheHit);
    let a = b.lookup_artifact(fp2).expect("published artifact visible");
    assert_eq!(a.module, vec![0, 97, 115, 109]);
}

#[test]
fn concurrent_requests_coalesce() {
    let mut b = ExtensionBuilder::new("/cache".to_string());
    assert_eq!(b.request_build("/src", 42), BuildStep::StartCompile);
    // a second caller for the same fingerprint joins the build in flight
    assert_eq!(b.request_build("/src", 42), BuildStep::AwaitInFlight);
    // a different fingerprint builds independently
    assert_eq!(b.request_build("/other", 43), BuildStep::StartCompile);
}

#[test]
fn crash_mid_write_leaves_no_artifact() {
    let mut b = ExtensionBuilder::new("/cache".to_string());
    assert_eq!(b.request_build("/src", 42), BuildStep::StartCompile);
    b.stage_artifact(BuildArtifact { fingerprint: 42, module: vec![1, 2] });
    b.crash();
    assert!(b.lookup_artifact(42).is_none());
    // after restart the build simply runs again
    assert_eq!(b.request_build("/src", 42), BuildStep::StartCompile);
}

#[test]
fn failed_build_is_surfaced_verbatim() {
    let mut b = ExtensionBuilder::new("/cache".to_string());
    assert_eq!(b.request_build("/src", 5), BuildStep::StartCompile);
    let e = b.fail_build(5, "error: expected `;`".to_string(), 101);
    assert_eq!(e, BuildError::BuildFailed("error: expected `;`".to_string(), 101));
    assert!(b.lookup_artifact(5).is_none());
    // deterministic failures are never retried automatically, but a
    // fresh request may start a new build
    assert_eq!(b.request_build("/src", 5), BuildStep::StartCompile);
}

#[test]
fn trap_is_isolated_to_one_instance() {
    let mut h = ComponentHost::new();
    let art = BuildArtifact { fingerprint: 1, module: vec![] };
    let a = h.load(&art);
    let b = h.load(&art);
    assert_ne!(a, b);
    h.begin_invoke(a).expect("idle instance accepts a call");
    let r = h.finish_invoke(a, GuestOutcome::Trap("unreachable".to_string()));
    assert_eq!(r, Err(HostError::ExecutionError));
    // the other instance is fully invokable immediately after
    h.begin_invoke(b).expect("second instance unaffected");
    let r2 = h.finish_invoke(b, GuestOutcome::Success(vec![7]));
    assert_eq!(r2, Ok(vec![7]));
}

#[test]
fn timeout_tears_the_instance_down() {
    let mut h = ComponentHost::new();
    let art = BuildArtifact { fingerprint: 1, module: vec![] };
    let a = h.load(&art);
    h.begin_invoke(a).expect("idle instance accepts a call");
    let r = h.finish_invoke(a, GuestOutcome::Timeout);
    assert_eq!(r, Err(HostError::ExecutionTimeout));
    // subsequent invocations fail with InstanceGone until a reload
    assert_eq!(h.begin_invoke(a), Err(HostError::InstanceGone));
    let again = h.load(&art);
    h.begin_invoke(again).expect("reloaded instance works");
}

#[test]
fn invocations_on_one_instance_serialize() {
    let mut h = ComponentHost::new();
    let a = h.load(&BuildArtifact { fingerprint: 1, module: vec![] });
    h.begin_invoke(a).expect("first call admitted");
    assert_eq!(h.begin_invoke(a), Err(HostError::InstanceBusy));
    h.finish_invoke(a, GuestOutcome::Success(vec![])).expect("call finishes");
    h.begin_invoke(a).expect("idle again");
}

#[test]
fn unload_makes_instance_gone() {
    let mut h = ComponentHost::new();
    let a = h.load(&BuildArtifact { fingerprint: 1, module: vec![] });
    h.unload(a).expect("loaded instance unloads");
    assert_eq!(h.begin_invoke(a), Err(HostError::InstanceGone));
    assert_eq!(h.unload(99), Err(HostError::InstanceGone));
}

#[test]
fn duplicate_command_id_collides() {
    let mut reg = CommandRegistry::new();
    let m1 = manifest_with_commands("first-ext", &["foo", "bar"]);
    let m2 = manifest_with_commands("second-ext", &["foo"]);
    reg.register(&m1, 1).expect("first registration succeeds");
    assert_eq!(reg.register(&m2, 2), Err(RegistryError::CommandCollision));
    // the collision left the registry unchanged: foo still routes to 1
    let h = reg.resolve("foo").expect("foo stays bound");
    assert_eq!(h.instance, 1);
}

#[test]
fn resolve_and_dispose() {
    let mut reg = CommandRegistry::new();
    let m1 = manifest_with_commands("first-ext", &["foo"]);
    let m2 = manifest_with_commands("second-ext", &["bar"]);
    reg.register(&m1, 1).expect("register first");
    reg.register(&m2, 2).expect("register second");
    assert!(reg.resolve("missing").is_none());
    assert_eq!(reg.resolve("bar").expect("bound").instance, 2);
    reg.dispose(1);
    assert!(reg.resolve("foo").is_none());
    assert_eq!(reg.resolve("bar").expect("still bound").instance, 2);
}

#[test]
fn commands_api_records_names() {
    let c = Commands::new()
        .register_command("copy", || "copied".to_string())
        .register_command("paste", || "pasted".to_string())
        .execute_command();
    assert_eq!(c.len(), 2);
}
