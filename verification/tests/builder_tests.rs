use openvm_hip::builder::{
    detect_hip_arch, hip_debug_enabled, hipcc_parallel_jobs, hipconfig_arch, is_hip_source,
    line_arch, locate_tool, rerun_if_changed, rocminfo_arch, tool_search_paths, BuildEnv,
    BuildError, HipBuilder,
};

#[test]
fn test_default_builder() {
    let builder = HipBuilder::new(None, None);
    assert!(builder.library_name.is_empty());
    assert!(builder.source_files.is_empty());
    assert!(builder.custom_flags.contains(&"--std=c++17".to_string()));
    assert!(builder.link_libraries.contains(&"amdhip64".to_string()));
}

#[test]
fn test_builder_chain() {
    let builder = HipBuilder::new(None, None)
        .library_name("test_lib")
        .hip_arch("gfx1100")
        .hip_opt_level(2)
        .flag("-Wall");

    assert_eq!(builder.library_name, "test_lib");
    assert_eq!(builder.hip_arch, vec!["gfx1100"]);
    assert_eq!(builder.hip_opt_level, Some("2".to_string()));
    assert!(builder.custom_flags.contains(&"-Wall".to_string()));
}

#[test]
fn test_hipcc_parallel_jobs() {
    let jobs = hipcc_parallel_jobs(Some(16), None);
    assert!(jobs.starts_with("-j"));
}

#[test]
fn parallel_jobs_prefers_hip_threads() {
    assert_eq!(hipcc_parallel_jobs(Some(16), Some("8")), "-j8");
    assert_eq!(hipcc_parallel_jobs(Some(16), Some("+12")), "-j12");
    assert_eq!(hipcc_parallel_jobs(Some(16), Some("eight")), "-j16");
    assert_eq!(hipcc_parallel_jobs(Some(16), Some(" 8")), "-j16");
    assert_eq!(hipcc_parallel_jobs(Some(16), Some("")), "-j16");
    assert_eq!(hipcc_parallel_jobs(None, None), "-j1");
    assert_eq!(hipcc_parallel_jobs(Some(3), Some("99999999999999999999999")), "-j3");
    assert_eq!(hipcc_parallel_jobs(None, Some("0")), "-j0");
}

#[test]
fn default_search_paths_follow_environment() {
    assert_eq!(HipBuilder::new(None, None).link_search_paths, vec!["/opt/rocm/lib"]);
    assert_eq!(
        HipBuilder::new(Some("/opt/hip"), Some("/opt/rocm-6.2")).link_search_paths,
        vec!["/opt/hip/lib", "/opt/rocm-6.2/lib"]
    );
    assert_eq!(HipBuilder::new(Some("/opt/rocm"), None).link_search_paths, vec!["/opt/rocm/lib"]);
    assert_eq!(
        HipBuilder::new(Some("/hip"), None).link_search_paths,
        vec!["/hip/lib"]
    );
    assert_eq!(
        HipBuilder::new(Some("/hip"), Some("/rocm")).link_search_paths,
        vec!["/hip/lib", "/rocm/lib"]
    );
    assert_eq!(
        HipBuilder::new(None, Some("/rocm")).link_search_paths,
        vec!["/rocm/lib"]
    );
    let b = HipBuilder::new(None, None);
    assert_eq!(b.watch_paths, vec!["build.rs"]);
    assert!(b.hip_opt_level.is_none());
}

#[test]
fn sources_and_includes_are_watched() {
    let b = HipBuilder::new(None, None)
        .include_path("inc")
        .file("a.hip")
        .files(&["b.cu", "c.cpp"])
        .watch("extra")
        .watch_glob("kernels/*.hip")
        .include_from_dep(Some("/dep/include"))
        .include_from_dep(None);
    assert_eq!(b.include_paths, vec!["inc", "/dep/include"]);
    assert_eq!(b.source_files, vec!["a.hip", "b.cu", "c.cpp"]);
    assert_eq!(b.watch_paths, vec!["build.rs", "inc", "a.hip", "b.cu", "c.cpp", "extra"]);
    assert_eq!(b.watch_globs, vec!["kernels/*.hip"]);
}

#[test]
fn glob_keeps_hip_sources_only() {
    let matches = vec![
        "src/a.hip".to_string(),
        "src/b.cu".to_string(),
        "src/c.cpp".to_string(),
        "src/d.h".to_string(),
        "src/.cu".to_string(),
        "src.cu/readme".to_string(),
        "e.tar.cu".to_string(),
        "f.HIP".to_string(),
    ];
    let b = HipBuilder::new(None, None).files_from_glob("src/*", matches);
    assert_eq!(b.source_files, vec!["src/a.hip", "src/b.cu", "src/c.cpp", "e.tar.cu"]);
    assert_eq!(b.watch_globs, vec!["src/*"]);
    assert!(is_hip_source("x.cu"));
    assert!(!is_hip_source("x.cuh"));
    assert!(!is_hip_source("cu"));
}

#[test]
fn archs_and_libraries() {
    let b = HipBuilder::new(None, None)
        .hip_archs(vec!["gfx90a", "gfx1100"])
        .link_lib("m")
        .link_search("/opt/lib");
    assert_eq!(b.hip_arch, vec!["gfx90a", "gfx1100"]);
    assert_eq!(b.link_libraries, vec!["amdhip64", "m"]);
    assert_eq!(
        b.link_directives(),
        vec![
            "cargo:rustc-link-search=native=/opt/rocm/lib",
            "cargo:rustc-link-search=native=/opt/lib",
            "cargo:rustc-link-lib=amdhip64",
            "cargo:rustc-link-lib=m",
        ]
    );
}

#[test]
fn validation_errors() {
    assert_eq!(HipBuilder::new(None, None).validate(), Err(BuildError::MissingLibraryName));
    assert_eq!(
        HipBuilder::new(None, None).library_name("k").validate(),
        Err(BuildError::NoSourceFiles)
    );
    assert_eq!(HipBuilder::new(None, None).library_name("k").file("a.hip").validate(), Ok(()));
}

#[test]
fn rerun_directives_list_env_then_paths() {
    let b = HipBuilder::new(None, None).watch("k.hip");
    assert_eq!(
        b.rerun_directives(),
        vec![
            "cargo:rerun-if-env-changed=HIP_ARCH",
            "cargo:rerun-if-env-changed=HIP_OPT_LEVEL",
            "cargo:rerun-if-env-changed=HIP_DEBUG",
            "cargo:rerun-if-env-changed=HIP_THREADS",
            "cargo:rerun-if-env-changed=HIP_PATH",
            "cargo:rerun-if-env-changed=ROCM_PATH",
            "cargo:rerun-if-changed=build.rs",
            "cargo:rerun-if-changed=k.hip",
        ]
    );
    assert_eq!(rerun_if_changed("x"), "cargo:rerun-if-changed=x");
}

#[test]
fn arch_resolution() {
    let own = HipBuilder::new(None, None).hip_arch("gfx942");
    assert_eq!(own.resolve_hip_archs(Some("gfx90a")), Some(vec!["gfx942".to_string()]));
    let b = HipBuilder::new(None, None);
    assert_eq!(
        b.resolve_hip_archs(Some(" gfx90a , ,gfx1100,")),
        Some(vec!["gfx90a".to_string(), "gfx1100".to_string()])
    );
    assert_eq!(b.resolve_hip_archs(Some("")), Some(vec![]));
    assert_eq!(b.resolve_hip_archs(None), None);
}

#[test]
fn optimization_level() {
    let b = HipBuilder::new(None, None);
    assert_eq!(b.opt_level(None, false), "3");
    assert_eq!(b.opt_level(Some("1"), false), "1");
    assert_eq!(b.opt_level(Some("1"), true), "0");
    let own = HipBuilder::new(None, None).hip_opt_level(2);
    assert_eq!(own.opt_level(Some("1"), true), "2");
    assert!(hip_debug_enabled(Some("1")));
    assert!(!hip_debug_enabled(Some("true")));
    assert!(!hip_debug_enabled(None));
}

#[test]
fn compile_plan_flags_in_order() {
    let b = HipBuilder::new(None, None)
        .library_name("kern")
        .include_path("inc")
        .file("a.hip")
        .flag("-Wall");
    let env = BuildEnv {
        hip_path: None,
        rocm_path: Some("/rocm".to_string()),
        hip_arch: None,
        hip_opt_level: None,
        hip_debug: None,
    };
    let archs = vec!["gfx90a".to_string(), "gfx1100".to_string()];
    let plan = b.compile_plan(&env, &archs, "hipcc", "-j4");
    assert_eq!(plan.compiler, "hipcc");
    assert_eq!(plan.include_dirs, vec!["inc", "/rocm/include"]);
    assert_eq!(
        plan.flags,
        vec![
            "--std=c++17",
            "-Wall",
            "--offload-arch=gfx90a",
            "--offload-arch=gfx1100",
            "-j4",
            "-O3"
        ]
    );
    assert!(!plan.define_hip_debug);
    assert!(!plan.debug_info);
    assert_eq!(plan.files, vec!["a.hip"]);
    assert_eq!(plan.library_name, "kern");

    let debug_env = BuildEnv {
        hip_path: Some("/hip".to_string()),
        rocm_path: Some("/rocm".to_string()),
        hip_arch: None,
        hip_opt_level: Some("2".to_string()),
        hip_debug: Some("1".to_string()),
    };
    let plan = b.compile_plan(&debug_env, &vec![], "/hip/bin/hipcc", "-j1");
    assert_eq!(plan.include_dirs, vec!["inc", "/hip/include"]);
    assert_eq!(plan.flags, vec!["-g", "-O0", "--std=c++17", "-Wall", "-j1", "-O0"]);
    assert!(plan.define_hip_debug);
    assert!(plan.debug_info);
}

#[test]
fn tool_search_order() {
    assert_eq!(
        tool_search_paths(Some("/hip"), Some("/rocm"), "hipcc", true),
        vec![
            "/hip/bin/hipcc",
            "/rocm/bin/hipcc",
            "/opt/rocm/bin/hipcc",
            "/usr/local/rocm/bin/hipcc"
        ]
    );
    assert_eq!(
        tool_search_paths(None, Some("/rocm"), "hipconfig", false),
        vec![
            "/opt/rocm/bin/hipconfig",
            "/usr/local/rocm/bin/hipconfig",
            "/rocm/bin/hipconfig"
        ]
    );
    let c = tool_search_paths(None, None, "hipcc", true);
    assert_eq!(locate_tool(true, "hipcc", &c, &vec![false, false]), Some("hipcc".to_string()));
    assert_eq!(
        locate_tool(false, "hipcc", &c, &vec![false, true]),
        Some("/usr/local/rocm/bin/hipcc".to_string())
    );
    assert_eq!(locate_tool(false, "hipcc", &c, &vec![false, false]), None);
}

#[test]
fn architecture_from_tool_output() {
    assert_eq!(hipconfig_arch("gfx1100\n"), Some("gfx1100".to_string()));
    assert_eq!(hipconfig_arch("  \n"), None);
    assert_eq!(hipconfig_arch("sm_80"), None);
    let rocminfo = "ROCk module is loaded\n  Name:                    AMD Ryzen 9\n  Name:  gfx1151  \r\n  Name: gfx1100\n";
    assert_eq!(rocminfo_arch(rocminfo), Some("gfx1151".to_string()));
    assert_eq!(rocminfo_arch("Name: cpu\n"), None);
    assert_eq!(rocminfo_arch("Name:gfx90a"), Some("gfx90a".to_string()));
    assert_eq!(line_arch("  Marketing Name: gfx"), None);
    assert_eq!(
        detect_hip_arch(Some("nothing"), Some("  Name: gfx942\n")),
        Some("gfx942".to_string())
    );
    assert_eq!(detect_hip_arch(Some("gfx90a"), Some("Name: gfx942")), Some("gfx90a".to_string()));
    assert_eq!(detect_hip_arch(None, None), None);
}

#[test]
fn test_arch_detection() {
    let arch = detect_hip_arch(None, Some("Agent 2\n  Name:                    gfx1151\n"))
        .expect("an architecture is named");
    assert!(
        arch.starts_with("gfx"),
        "Expected architecture to start with 'gfx', got: {}",
        arch
    );
}

#[test]
fn tool_found_in_either_search_order() {
    let on_disk = ["/hip/bin/hipcc"];
    for order in [true, false] {
        let c = tool_search_paths(Some("/hip"), Some("/rocm"), "hipcc", order);
        let exists: Vec<bool> = c.iter().map(|p| on_disk.contains(&p.as_str())).collect();
        assert_eq!(locate_tool(false, "hipcc", &c, &exists), Some("/hip/bin/hipcc".to_string()));
    }
    for order in [true, false] {
        let c = tool_search_paths(Some("/hip"), None, "hipcc", order);
        let exists: Vec<bool> = c.iter().map(|p| *p == "/usr/local/rocm/bin/hipcc").collect();
        assert_eq!(
            locate_tool(false, "hipcc", &c, &exists),
            Some("/usr/local/rocm/bin/hipcc".to_string())
        );
        let none = vec![false; c.len()];
        assert_eq!(locate_tool(false, "hipcc", &c, &none), None);
    }
}

#[test]
fn files_equals_chain_of_file() {
    let base = HipBuilder::new(Some("/opt/hip"), None).library_name("k").include_path("inc");
    let at_once = base.clone().files(&["a.hip", "b.cu", "a.hip"]);
    let one_by_one = base.clone().file("a.hip").file("b.cu").file("a.hip");
    assert_eq!(at_once.source_files, one_by_one.source_files);
    assert_eq!(at_once.watch_paths, one_by_one.watch_paths);
    assert_eq!(at_once.include_paths, one_by_one.include_paths);
    assert_eq!(at_once.library_name, one_by_one.library_name);
    assert_eq!(at_once.link_search_paths, one_by_one.link_search_paths);
    let none = base.clone().files(&[]);
    assert_eq!(none.source_files, base.source_files);
    assert_eq!(none.watch_paths, base.watch_paths);
}
