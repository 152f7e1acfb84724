use meta_indexer::infrastructure::watcher::{path_plan, rescan_plan, should_reindex, RescanPlan};
use meta_indexer::workspace::{
    detect_workspace_root, k8s_candidates, npm_packages_path, resolve_workspace_root, trim_root, HintProbe,
    StartupProbe,
};

fn v(p: &[&str]) -> Vec<String> {
    p.iter().map(|s| s.to_string()).collect()
}

#[test]
fn each_path_stales_its_indexes() {
    assert_eq!(
        path_plan("/w/npm-packages/packages/messaging/src/events.ts"),
        RescanPlan { async_flow: true, grpc: false, docs: false }
    );
    assert_eq!(
        path_plan("/w/proto-registry/proto/user.proto"),
        RescanPlan { async_flow: false, grpc: true, docs: false }
    );
    assert_eq!(path_plan("/w/docs/arch.md"), RescanPlan { async_flow: false, grpc: false, docs: true });
    assert_eq!(
        path_plan("/w/worker-x/src/user.service.ts"),
        RescanPlan { async_flow: true, grpc: true, docs: false }
    );
    assert_eq!(
        path_plan("/w/node_modules/messaging/x.ts"),
        RescanPlan { async_flow: false, grpc: false, docs: false }
    );
    assert_eq!(path_plan("/w/README.md"), RescanPlan { async_flow: false, grpc: false, docs: false });
}

#[test]
fn a_batch_stales_the_union() {
    let plan = rescan_plan(&v(&["/w/docs/a.md", "/w/p/x.proto", "/w/readme.txt"]));
    assert_eq!(plan, RescanPlan { async_flow: false, grpc: true, docs: true });
    assert_eq!(rescan_plan(&v(&[])), RescanPlan { async_flow: false, grpc: false, docs: false });
}

#[test]
fn impact_reindex_on_typescript_sources() {
    assert!(should_reindex(&v(&["/w/a.md", "/w/ms/src/a.ts"])));
    assert!(!should_reindex(&v(&["/w/ms/dist/a.ts", "/w/node_modules/x/a.ts", "/w/a.tsx"])));
    assert!(!should_reindex(&v(&[])));
}

#[test]
fn startup_root_order() {
    let mut p = StartupProbe {
        code_root: None,
        workspace_root: None,
        k8s_has_npm: vec![false, true, true],
        code_exists: true,
        local_npm: true,
        parent_npm: true,
    };
    assert_eq!(detect_workspace_root(&p), "/code/submodules");
    p.k8s_has_npm = vec![false, false, false];
    assert_eq!(detect_workspace_root(&p), "/code");
    p.code_exists = false;
    assert_eq!(detect_workspace_root(&p), ".");
    p.local_npm = false;
    assert_eq!(detect_workspace_root(&p), "..");
    p.parent_npm = false;
    assert_eq!(detect_workspace_root(&p), ".");
    p.workspace_root = Some("/ws".to_string());
    assert_eq!(detect_workspace_root(&p), "/ws");
    p.code_root = Some("/cr".to_string());
    assert_eq!(detect_workspace_root(&p), "/cr");
    assert_eq!(k8s_candidates().len(), 3);
}

#[test]
fn hinted_root_order() {
    let mut p = HintProbe {
        hint_has_npm: false,
        hint_exists: false,
        env_root: Some("/env//".to_string()),
        env_root_exists: true,
        code_exists: true,
        parent_npm: true,
        local_npm: true,
    };
    assert_eq!(resolve_workspace_root(Some("/h/"), &p), "/env");
    p.hint_exists = true;
    assert_eq!(resolve_workspace_root(Some("/h/"), &p), "/h");
    assert_eq!(resolve_workspace_root(None, &p), "/env");
    p.env_root_exists = false;
    assert_eq!(resolve_workspace_root(None, &p), "/code");
    p.code_exists = false;
    assert_eq!(resolve_workspace_root(None, &p), "..");
    p.parent_npm = false;
    assert_eq!(resolve_workspace_root(None, &p), ".");
}

#[test]
fn root_paths() {
    assert_eq!(npm_packages_path("/w"), "/w/npm-packages");
    assert_eq!(trim_root("/w///"), "/w");
    assert_eq!(trim_root("/"), "");
}
