use wgx::wgsl_modules::{LoadError, Module, ModuleCache, SourceSet};
use wgx::wgsl_path::ModPath;

// the code compared without white space, as token streams compare it
fn squash(s: &str) -> String {
    s.chars().filter(|c| !c.is_whitespace()).collect()
}

const UTIL: &str = "fn normal_2d(v:vec2f) -> vec2f {\n    return vec2f(v.y, -v.x);\n}\n";

fn path_text(p: &ModPath) -> String {
    String::from_utf8(p.to_bytes()).unwrap()
}

#[test]
fn inline_registering() {
    let sources = SourceSet::new();
    let mut cache = ModuleCache::new();

    cache
        .load(
            "tests/$inline//$util",
            "fn normal_2d (v : vec2f) -> vec2f { return vec2f (v . y, - v . x) ; }",
            &sources,
        )
        .unwrap();

    let module_src = cache
        .load("tests/$module/$module", "& include \"../$inline/$util\" ;", &sources)
        .unwrap()
        .code()
        .to_string();

    assert_eq!(squash(&module_src), squash(UTIL));
}

#[test]
fn inline_including() {
    let mut sources = SourceSet::new();
    sources.add("shaders/util.wgsl", UTIL);
    let mut cache = ModuleCache::new();

    let module_src = cache
        .load("tests/$module", "& include \"../shaders/util.wgsl\" ;", &sources)
        .unwrap()
        .code()
        .to_string();

    assert_eq!(
        squash(&module_src),
        squash("fn normal_2d (v : vec2f) -> vec2f { return vec2f (v . y, - v . x) ; }")
    );
}

#[test]
fn inline_inner_including() {
    let sources = SourceSet::new();
    let mut cache = ModuleCache::new();

    cache
        .load(
            "tests/inner/$src",
            "fn normal_2d (v : vec2f) -> vec2f { return vec2f (v . y, - v . x) ; }",
            &sources,
        )
        .unwrap();

    let module_src = cache
        .load("tests/$module", "& include \"./inner/$src\" ;", &sources)
        .unwrap()
        .code()
        .to_string();

    assert_eq!(
        squash(&module_src),
        squash("fn normal_2d (v : vec2f) -> vec2f { return vec2f (v . y, - v . x) ; }")
    );
}

#[test]
fn inline_loading_into_cache() {
    let sources = SourceSet::new();
    let mut modules = ModuleCache::new();

    modules
        .load(
            "inline::util",
            "fn normal_2d (v : vec2f) -> vec2f { return vec2f (v . y, - v . x) ; }",
            &sources,
        )
        .unwrap();

    let module = modules.load("inline::module", "& include \"inline::util\" ;", &sources).unwrap();

    assert_eq!(squash(module.code()), squash(UTIL));
}

#[test]
fn circular_includes() {
    let mut sources = SourceSet::new();
    sources.add("shaders/circular.wgsl", "#include \"circular_b.wgsl\"\nfn a() {}");
    sources.add("shaders/circular_b.wgsl", "#include \"circular.wgsl\"\nfn b() {}");

    let res = Module::load_from_path("shaders/circular.wgsl", &sources);

    match res {
        Err(err) => {
            assert!(err.message().starts_with("circular dependency"));
            assert_eq!(
                err.message(),
                "circular dependency shaders/circular_b.wgsl from shaders/circular.wgsl"
            );
            assert!(matches!(err, LoadError::CircularDependency { .. }));
        },
        Err(other) => panic!("expected a circular dependency, got {:?}", other),
        Ok(_) => panic!("expected a circular dependency"),
    }
}

#[test]
fn nonexistent_includes() {
    let sources = SourceSet::new();

    let res = Module::load_from_path("shaders/nonexistent.wgsl", &sources);

    match res {
        Err(err) => {
            assert!(err.message().starts_with("failed loading module from path"));
            assert_eq!(err.message(), "failed loading module from path 'shaders/nonexistent.wgsl'");
        },
        Err(other) => panic!("expected a failed load, got {:?}", other),
        Ok(_) => panic!("expected a failed load"),
    }
}

#[test]
fn nonexistent_included_module() {
    let sources = SourceSet::new();

    let res = Module::load("shaders/main.wgsl", "#include 'missing.wgsl'", &sources);

    match res {
        Err(LoadError::FailedLoading { path }) => {
            assert_eq!(path_text(&path), "shaders/missing.wgsl")
        },
        Err(other) => panic!("expected a failed load, got {:?}", other),
        Ok(_) => panic!("expected a failed load"),
    }
}

#[test]
fn invalid_path() {
    let sources = SourceSet::new();

    let res = Module::load_from_path("", &sources);

    match res {
        Err(err) => {
            assert!(err.message().starts_with("invalid path"));
            assert_eq!(err.message(), "invalid path ''");
        },
        Ok(_) => panic!("expected an invalid path"),
    }
}

#[test]
fn invalid_path_of_root_include() {
    let sources = SourceSet::new();

    // an include naming the root directory has no directory of its own
    let res = Module::load("main.wgsl", "#include \"/\"", &sources);

    match res {
        Err(LoadError::InvalidPath { path }) => assert_eq!(path_text(&path), "/"),
        Err(other) => panic!("expected an invalid path, got {:?}", other),
        Ok(_) => panic!("expected an invalid path"),
    }
}

#[test]
fn nested_includes_are_spliced_in_place() {
    let mut sources = SourceSet::new();
    sources.add("shaders/a.wgsl", "A1 #include \"b.wgsl\" A2");
    sources.add("shaders/b.wgsl", "B1 #include 'sub/c.wgsl' B2");
    sources.add("shaders/sub/c.wgsl", "C");

    let module = Module::load("shaders/main.wgsl", "M1 #include \"a.wgsl\" M2 #include \"sub/c.wgsl\" M3", &sources)
        .unwrap();

    assert_eq!(module.code(), "M1 A1 B1 C B2 A2 M2 C M3");
    assert_eq!(module.source(), "M1 #include \"a.wgsl\" M2 #include \"sub/c.wgsl\" M3");
    assert_eq!(module.includes().len(), 2);
    assert_eq!(module.includes()[0].source_range, 3..20);
    assert_eq!(path_text(module.path()), "shaders/main.wgsl");

    let mut deps: Vec<String> = module.dependencies().iter().map(path_text).collect();
    deps.sort();
    assert_eq!(
        deps,
        vec![
            "shaders/a.wgsl".to_string(),
            "shaders/shaders/b.wgsl".to_string(),
            "shaders/shaders/shaders/sub/c.wgsl".to_string(),
            "shaders/sub/c.wgsl".to_string(),
        ]
    );
}

#[test]
fn plain_module_code_is_its_source() {
    let sources = SourceSet::new();

    let module = Module::load("shaders/plain.wgsl", "fn f() -> f32 { return 1.0; }", &sources).unwrap();

    assert_eq!(module.code(), module.source());
    assert!(module.dependencies().is_empty());
    assert!(module.includes().is_empty());
}

#[test]
fn escaped_quotes_in_include_paths() {
    let mut sources = SourceSet::new();
    sources.add("dir/we\"ird.wgsl", "W");

    let module = Module::load("dir/main.wgsl", "x #include \"we\\\"ird.wgsl\" y", &sources).unwrap();

    assert_eq!(module.code(), "x W y");
}

#[test]
fn cache_keeps_loaded_modules() {
    let mut sources = SourceSet::new();
    sources.add("lib/util.wgsl", "U");
    let mut cache = ModuleCache::new();

    let code = cache.load("lib/main.wgsl", "#include \"util.wgsl\";", &sources).unwrap().code().to_string();
    assert_eq!(code, "U;");

    assert_eq!(cache.module("lib/main.wgsl").unwrap().code(), "U;");
    assert_eq!(cache.module("lib/util.wgsl").unwrap().code(), "U");
    assert!(cache.module("lib/other.wgsl").is_none());

    let mut keys: Vec<String> = cache.modules().iter().map(|(k, _)| path_text(k)).collect();
    keys.sort();
    assert_eq!(keys, vec!["lib/main.wgsl".to_string(), "lib/util.wgsl".to_string()]);
}

#[test]
fn cache_load_from_path_uses_sources() {
    let mut sources = SourceSet::new();
    sources.add("lib/main.wgsl", "& include 'util.wgsl' ; rest");
    sources.add("lib/util.wgsl", "U");
    let mut cache = ModuleCache::new();

    let code = cache.load_from_path("lib/x/../main.wgsl", &sources).unwrap().code().to_string();

    assert_eq!(code, "U rest");
    assert!(cache.module("lib/x/../main.wgsl").is_some());
}

#[test]
fn later_sources_shadow_earlier_ones() {
    let mut sources = SourceSet::new();
    sources.add("a.wgsl", "old");
    sources.add("a.wgsl", "new");
    assert_eq!(sources.len(), 2);

    let module = Module::load_from_path("a.wgsl", &sources).unwrap();

    assert_eq!(module.code(), "new");
}

#[test]
fn naga_parsing_failing() {
    let sources = SourceSet::new();

    let res = Module::load("$module", "nonexistent token ;", &sources)
        .map_err(|e| format!("{:?}", e))
        .and_then(|module| module.naga_module(None).map(|_| ()));

    match res {
        Err(err) => assert!(err.starts_with("error: expected global item"), "{}", err),
        Ok(()) => panic!("expected a parse error"),
    }
}

#[test]
fn naga_accepts_and_validates_spliced_code() {
    let mut sources = SourceSet::new();
    sources.add("shaders/util.wgsl", UTIL);

    let module = Module::load(
        "shaders/main.wgsl",
        "#include \"util.wgsl\"\nfn twice(v: vec2f) -> vec2f { return normal_2d(normal_2d(v)); }",
        &sources,
    )
    .unwrap();

    let (_, info) = module.naga_module(None).unwrap();
    assert!(info.is_none());

    let config = (naga::valid::ValidationFlags::all(), naga::valid::Capabilities::all());
    let (_, info) = module.naga_module(Some(config)).unwrap();
    assert!(info.is_some());

    assert!(wgx::naga_front::naga_module("fn (", "broken.wgsl").is_err());
}

#[test]
fn defaults_are_empty() {
    let cache = ModuleCache::default();
    assert!(cache.modules().is_empty());
    let sources = SourceSet::default();
    assert_eq!(sources.len(), 0);
}

#[test]
fn a_module_included_twice_is_loaded_once() {
    let mut sources = SourceSet::new();
    sources.add("s/common.wgsl", "K");
    sources.add("s/x.wgsl", "X #include \"common.wgsl\"");
    let mut cache = ModuleCache::new();

    let code = cache
        .load("s/main.wgsl", "#include \"x.wgsl\" | #include './common.wgsl'", &sources)
        .unwrap()
        .code()
        .to_string();

    assert_eq!(code, "X K | K");
    assert_eq!(cache.modules().len(), 3);
}

#[test]
fn naga_validation_failing() {
    let sources = SourceSet::new();
    // a vertex entry point without a position output
    let invalid = "@vertex\nfn vs_main() -> @location(0) vec4f {\n    return vec4f(0.0);\n}\n";

    let res = Module::load("$module", invalid, &sources)
        .map_err(|e| format!("{:?}", e))
        .and_then(|module| {
            let config = (naga::valid::ValidationFlags::all(), naga::valid::Capabilities::all());
            module.naga_module(Some(config)).map(|_| ())
        });

    match res {
        Err(err) => assert!(err.starts_with("error: Entry point vs_main at Vertex is invalid"), "{}", err),
        Ok(()) => panic!("expected a validation error"),
    }
}

#[test]
fn bare_self_inclusion_is_circular() {
    let mut sources = SourceSet::new();
    sources.add("s/a.wgsl", "#include \"a.wgsl\"");
    sources.add("s/b.wgsl", "#include \"c.wgsl\"");
    sources.add("s/c.wgsl", "#include \"b.wgsl\"");

    for root in ["s/a.wgsl", "s/b.wgsl"] {
        match Module::load_from_path(root, &sources) {
            Err(err) => assert!(err.message().starts_with("circular dependency"), "{}", err.message()),
            Ok(_) => panic!("expected a circular dependency"),
        }
    }
}

#[test]
fn a_cached_module_is_taken_as_it_is() {
    let mut first = SourceSet::new();
    first.add("lib/b.wgsl", "B");
    let mut cache = ModuleCache::new();
    cache.load_from_path("lib/b.wgsl", &first).unwrap();

    // in these sources b includes a, which would close a cycle; the cached b is
    // used and its directives are not followed again
    let mut second = SourceSet::new();
    second.add("lib/a.wgsl", "#include \"b.wgsl\"\nA");
    second.add("lib/b.wgsl", "#include \"a.wgsl\"\nB");
    let code = cache.load_from_path("lib/a.wgsl", &second).unwrap().code().to_string();
    assert_eq!(code, "B\nA");

    // without the cache the same sources fail
    let res = Module::load_from_path("lib/a.wgsl", &second);
    assert!(matches!(res, Err(LoadError::CircularDependency { .. })));
}

#[test]
fn load_error_messages_show_the_path_as_written() {
    let sources = SourceSet::new();
    let res = Module::load_from_path("shaders/ünïcode.wgsl", &sources);
    match res {
        Err(err) => assert_eq!(err.message(), "failed loading module from path 'shaders/ünïcode.wgsl'"),
        Ok(_) => panic!("expected a failed load"),
    }
}

#[test]
fn the_last_directive_is_resolved_first() {
    let sources = SourceSet::new();
    let res = Module::load("lib/main.wgsl", "#include \"a.wgsl\"\n#include \"b.wgsl\"\n", &sources);
    match res {
        Err(err) => assert_eq!(err.message(), "failed loading module from path 'lib/b.wgsl'"),
        Ok(_) => panic!("expected a failed load"),
    }
}

#[test]
fn a_directive_is_resolved_to_the_end_before_the_one_above_it() {
    let mut sources = SourceSet::new();
    sources.add("lib/b.wgsl", "#include \"c.wgsl\"\nB");
    let res = Module::load("lib/main.wgsl", "#include \"a.wgsl\"\n#include \"b.wgsl\"\n", &sources);
    match res {
        Err(err) => assert_eq!(err.message(), "failed loading module from path 'lib/c.wgsl'"),
        Ok(_) => panic!("expected a failed load"),
    }
}
