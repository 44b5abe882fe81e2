use kbs::kubeconfig::import::{import, resolve_name, set_proxies, short, target_path};
use kbs::kubeconfig::list::{entry_name, is_kubeconfig, list, sort_names, DirEntry};
use kbs::kubeconfig::{
    get_hostname, get_path, host_of_parsed, rename_context, set_proxy, single_host, Cluster,
    Kubeconfig, NamedCluster, NamedContext,
};
use kbs::metadata::labels::{to_map, Label};
use kbs::metadata::{selectors, ConfigMetadata, Metadata};
use kbs::Error;

fn cluster(name: &str, server: &str) -> NamedCluster {
    NamedCluster {
        name: name.to_string(),
        cluster: Some(Cluster {
            server: Some(server.to_string()),
            proxy_url: None,
        }),
    }
}

fn with_clusters(clusters: Vec<NamedCluster>) -> Kubeconfig {
    Kubeconfig {
        clusters,
        contexts: vec![NamedContext {
            name: "current-context".to_string(),
        }],
        current_context: Some("current-context".to_string()),
    }
}

fn kubeconfig() -> Kubeconfig {
    with_clusters(vec![cluster("test-cluster", "https://test.embik.me:6443")])
}

fn kubeconfig_multiple_cluster_same_host() -> Kubeconfig {
    with_clusters(vec![
        cluster("test-cluster", "https://test.embik.me:6443/some/suffix"),
        cluster("test-cluster-2", "https://test.embik.me:6443"),
    ])
}

fn kubeconfig_multiple_cluster_different_hosts() -> Kubeconfig {
    with_clusters(vec![
        cluster(
            "test-cluster",
            "https://kubernetes.embik.me:6443/some/suffix",
        ),
        cluster("test-cluster-2", "https://test.embik.me:6443"),
    ])
}

fn file(name: &str) -> DirEntry {
    DirEntry {
        file_name: name.to_string(),
        is_file: true,
    }
}

fn labelled(items: &[(&str, &str)]) -> ConfigMetadata {
    let labels: Vec<Label> = items
        .iter()
        .map(|(k, v)| Label {
            key: k.to_string(),
            value: Some(v.to_string()),
        })
        .collect();
    ConfigMetadata {
        labels: Some(to_map(&labels)),
    }
}

fn names(entries: &[kbs::kubeconfig::list::ListEntry]) -> Vec<String> {
    entries.iter().map(|e| e.name.clone()).collect()
}

fn strings(items: &[&str]) -> Vec<String> {
    items.iter().map(|s| s.to_string()).collect()
}

#[test]
fn test_get_hostname_single_cluster() {
    let kubeconfig = kubeconfig();
    assert_eq!("test.embik.me", get_hostname(&kubeconfig).unwrap());
}

#[test]
fn test_get_hostname_multiple_clusters() {
    let kubeconfig = kubeconfig_multiple_cluster_same_host();
    assert_eq!("test.embik.me", get_hostname(&kubeconfig).unwrap());

    let kubeconfig = kubeconfig_multiple_cluster_different_hosts();
    assert_eq!(true, get_hostname(&kubeconfig).is_err());
}

#[test]
fn test_rename_context() {
    let kubeconfig = kubeconfig();

    assert_eq!(
        "test.embik.me",
        rename_context(&kubeconfig, "test.embik.me")
            .unwrap()
            .current_context
            .unwrap()
    );
}

#[test]
fn hostname_errors_name_what_is_missing() {
    let r = get_hostname(&with_clusters(vec![]));
    assert!(matches!(r, Err(Error::Validation(_))));
    assert_eq!(
        r.unwrap_err().message(),
        "could not find any server URL in kubeconfig"
    );

    let r = get_hostname(&with_clusters(vec![NamedCluster {
        name: "c".to_string(),
        cluster: None,
    }]));
    assert_eq!(
        r.unwrap_err().message(),
        "could not find cluster field in kubeconfig"
    );

    let r = get_hostname(&with_clusters(vec![NamedCluster {
        name: "c".to_string(),
        cluster: Some(Cluster {
            server: None,
            proxy_url: None,
        }),
    }]));
    assert_eq!(
        r.unwrap_err().message(),
        "could not find server field in kubeconfig"
    );

    let r = get_hostname(&kubeconfig_multiple_cluster_different_hosts());
    assert_eq!(
        r.unwrap_err().message(),
        "kubeconfig has more than one server defined"
    );
}

#[test]
fn hostname_of_unparsable_and_hostless_urls() {
    let r = get_hostname(&with_clusters(vec![cluster("c", "not a url")]));
    assert!(matches!(r, Err(Error::URLParse(_))));
    assert!(r
        .unwrap_err()
        .message()
        .starts_with("failed to parse URL: "));

    let r = get_hostname(&with_clusters(vec![cluster("c", "unix:/run/foo.socket")]));
    assert!(matches!(r, Err(Error::Validation(_))));
    assert_eq!(
        r.unwrap_err().message(),
        "failed to parse host from server URL"
    );
}

#[test]
fn first_failing_cluster_decides() {
    let r = get_hostname(&with_clusters(vec![
        cluster("a", "https://a.example.com"),
        NamedCluster {
            name: "b".to_string(),
            cluster: None,
        },
        cluster("c", "not a url"),
    ]));
    assert_eq!(
        r.unwrap_err().message(),
        "could not find cluster field in kubeconfig"
    );
}

#[test]
fn hostname_is_the_url_host_not_the_url() {
    let k = with_clusters(vec![cluster("c", "https://user@Kubernetes.Embik.me:6443/x?y=z")]);
    assert_eq!(get_hostname(&k).unwrap(), "kubernetes.embik.me");
    let k = with_clusters(vec![cluster("c", "https://127.0.0.1:6443")]);
    assert_eq!(get_hostname(&k).unwrap(), "127.0.0.1");
    let k = with_clusters(vec![cluster("c", "https://localhost")]);
    assert_eq!(get_hostname(&k).unwrap(), "localhost");
}

#[test]
fn single_host_needs_agreement() {
    assert_eq!(single_host(&strings(&["a", "a", "a"])).unwrap(), "a");
    assert_eq!(single_host(&strings(&["a"])).unwrap(), "a");
    assert_eq!(
        single_host(&strings(&["a", "b", "a"])).unwrap_err().message(),
        "kubeconfig has more than one server defined"
    );
    assert_eq!(
        single_host(&strings(&["a", "a", "b"])).unwrap_err().message(),
        "kubeconfig has more than one server defined"
    );
    assert_eq!(
        single_host(&vec![]).unwrap_err().message(),
        "could not find any server URL in kubeconfig"
    );
}

#[test]
fn host_of_parsed_maps_each_outcome() {
    assert_eq!(
        host_of_parsed(Ok(Some("example.com".to_string()))).unwrap(),
        "example.com"
    );
    assert_eq!(
        host_of_parsed(Ok(None)).unwrap_err().message(),
        "failed to parse host from server URL"
    );
}

#[test]
fn rename_context_renames_only_the_current_context() {
    let k = Kubeconfig {
        clusters: vec![cluster("c", "https://a.example.com")],
        contexts: vec![
            NamedContext {
                name: "one".to_string(),
            },
            NamedContext {
                name: "two".to_string(),
            },
            NamedContext {
                name: "one".to_string(),
            },
        ],
        current_context: Some("one".to_string()),
    };
    let renamed = rename_context(&k, "new").unwrap();
    let contexts: Vec<String> = renamed.contexts.iter().map(|c| c.name.clone()).collect();
    assert_eq!(contexts, strings(&["new", "two", "new"]));
    assert_eq!(renamed.current_context, Some("new".to_string()));
    assert_eq!(renamed.clusters.len(), 1);
    assert_eq!(renamed.clusters[0].name, "c");
    // the kubeconfig passed in is left as it was
    assert_eq!(k.current_context, Some("one".to_string()));
    assert_eq!(k.contexts[0].name, "one");
}

#[test]
fn rename_context_needs_a_current_context() {
    let mut k = kubeconfig();
    k.current_context = None;
    let r = rename_context(&k, "new");
    assert!(matches!(r, Err(Error::Validation(_))));
    assert_eq!(r.unwrap_err().message(), "cannot get current context");
}

#[test]
fn set_proxy_fills_the_proxy_url() {
    let c = set_proxy(&cluster("c", "https://a.example.com"), "http://proxy:8080");
    let inner = c.cluster.unwrap();
    assert_eq!(inner.proxy_url, Some("http://proxy:8080".to_string()));
    assert_eq!(inner.server, Some("https://a.example.com".to_string()));
    assert_eq!(c.name, "c");

    let empty = NamedCluster {
        name: "e".to_string(),
        cluster: None,
    };
    let c = set_proxy(&empty, "http://proxy:8080");
    assert!(c.cluster.is_none());
    assert_eq!(c.name, "e");
}

#[test]
fn set_proxies_reaches_every_cluster() {
    let k = kubeconfig_multiple_cluster_same_host();
    let proxy = "http://proxy:8080".to_string();
    let with = set_proxies(&k, Some(&proxy));
    assert_eq!(with.clusters.len(), 2);
    for c in &with.clusters {
        assert_eq!(
            c.cluster.as_ref().unwrap().proxy_url,
            Some("http://proxy:8080".to_string())
        );
    }
    let without = set_proxies(&k, None);
    assert_eq!(without.clusters[0].cluster.as_ref().unwrap().proxy_url, None);
    assert_eq!(without.current_context, k.current_context);
}

#[test]
fn path_of_an_entry() {
    assert_eq!(
        get_path("/cfg/kbs", "kubernetes.embik.me"),
        "/cfg/kbs/kubernetes.embik.me.kubeconfig"
    );
}

#[test]
fn short_name_stops_at_the_first_dot() {
    assert_eq!(short("kubernetes.embik.me"), "kubernetes");
    assert_eq!(short("localhost"), "localhost");
    assert_eq!(short(".hidden"), "");
    assert_eq!(short(""), "");
}

#[test]
fn name_resolution_prefers_the_given_name() {
    let k = with_clusters(vec![cluster("c", "https://kubernetes.embik.me")]);
    let given = "kubernetes.beckers.dev".to_string();
    assert_eq!(
        resolve_name(&k, Some(&given), false).unwrap(),
        "kubernetes.beckers.dev"
    );
    assert_eq!(
        resolve_name(&k, Some(&given), true).unwrap(),
        "kubernetes.beckers.dev"
    );
    assert_eq!(
        resolve_name(&k, None, false).unwrap(),
        "kubernetes.embik.me"
    );
    assert_eq!(resolve_name(&k, None, true).unwrap(), "kubernetes");
    // a given name needs no server
    assert_eq!(
        resolve_name(&with_clusters(vec![]), Some(&given), false).unwrap(),
        "kubernetes.beckers.dev"
    );
    assert!(resolve_name(&with_clusters(vec![]), None, false).is_err());
}

#[test]
fn import_renames_context_and_names_the_path() {
    let k = with_clusters(vec![cluster("c", "https://kubernetes.embik.me")]);
    assert_eq!(
        target_path("/cfg", &k, None, false).unwrap(),
        "/cfg/kubernetes.embik.me.kubeconfig"
    );
    let imported = import("/cfg", &k, None, false, None, false).unwrap();
    assert_eq!(imported.name, "kubernetes.embik.me");
    assert_eq!(imported.path, "/cfg/kubernetes.embik.me.kubeconfig");
    assert_eq!(
        imported.kubeconfig.current_context,
        Some("kubernetes.embik.me".to_string())
    );
    assert_eq!(imported.kubeconfig.contexts[0].name, "kubernetes.embik.me");
    assert_eq!(
        imported.kubeconfig.clusters[0]
            .cluster
            .as_ref()
            .unwrap()
            .proxy_url,
        None
    );
}

#[test]
fn import_with_proxy_and_short_name() {
    let k = with_clusters(vec![cluster("c", "https://kubernetes.embik.me")]);
    let proxy = "socks5://localhost:1080".to_string();
    let imported = import("/cfg", &k, None, true, Some(&proxy), false).unwrap();
    assert_eq!(imported.name, "kubernetes");
    assert_eq!(imported.path, "/cfg/kubernetes.kubeconfig");
    assert_eq!(
        imported.kubeconfig.clusters[0]
            .cluster
            .as_ref()
            .unwrap()
            .proxy_url,
        Some("socks5://localhost:1080".to_string())
    );
    assert_eq!(
        imported.kubeconfig.current_context,
        Some("kubernetes".to_string())
    );
}

#[test]
fn import_refuses_a_taken_name() {
    let k = with_clusters(vec![cluster("c", "https://kubernetes.embik.me")]);
    let r = import("/cfg", &k, None, false, None, true);
    assert!(matches!(r, Err(Error::Collision(_))));
    assert_eq!(
        r.unwrap_err().message(),
        "kubeconfig kubernetes.embik.me already exists at /cfg/kubernetes.embik.me.kubeconfig"
    );
}

#[test]
fn import_reports_errors_in_order() {
    // no usable name comes before a taken path
    let r = import("/cfg", &with_clusters(vec![]), None, false, None, true);
    assert_eq!(
        r.unwrap_err().message(),
        "could not find any server URL in kubeconfig"
    );
    // a taken path comes before a missing current context
    let mut k = kubeconfig();
    k.current_context = None;
    let r = import("/cfg", &k, None, false, None, true);
    assert!(matches!(r, Err(Error::Collision(_))));
    let r = import("/cfg", &k, None, false, None, false);
    assert_eq!(r.unwrap_err().message(), "cannot get current context");
}

#[test]
fn kubeconfig_files_are_known_by_their_suffix() {
    assert!(is_kubeconfig("a.kubeconfig", true));
    assert!(is_kubeconfig("a.b.kubeconfig", true));
    assert!(is_kubeconfig("..kubeconfig", true));
    assert!(!is_kubeconfig("a.kubeconfig", false));
    assert!(!is_kubeconfig(".kubeconfig", true));
    assert!(!is_kubeconfig("kubeconfig", true));
    assert!(!is_kubeconfig("a.kubeconfig.bak", true));
    assert!(!is_kubeconfig("metadata.json", true));
    assert!(!is_kubeconfig("", true));

    assert_eq!(
        entry_name("kubernetes.embik.me.kubeconfig"),
        Some("kubernetes.embik.me".to_string())
    );
    assert_eq!(entry_name(".kubeconfig"), None);
    assert_eq!(entry_name("active"), None);
}

#[test]
fn names_are_sorted_by_code_point() {
    let sorted = sort_names(strings(&["b", "a.b", "a", "a-b", "B", "", "a"]));
    assert_eq!(sorted, strings(&["", "B", "a", "a", "a-b", "a.b", "b"]));
    assert_eq!(sort_names(vec![]), Vec::<String>::new());
}

#[test]
fn list_shows_kubeconfigs_in_file_name_order() {
    let files = vec![
        file("localhost.kubeconfig"),
        file("metadata.json"),
        file("a.kubeconfig"),
        DirEntry {
            file_name: "dir.kubeconfig".to_string(),
            is_file: false,
        },
        file("a-b.kubeconfig"),
        file("active"),
        file("kubernetes.embik.me.kubeconfig"),
    ];
    let listed = list(&files, &Metadata::new(), None);
    // `a-b.kubeconfig` sorts before `a.kubeconfig`
    assert_eq!(
        names(&listed),
        strings(&["a-b", "a", "kubernetes.embik.me", "localhost"])
    );
    assert!(listed.iter().all(|e| e.labels.is_none()));
}

#[test]
fn list_filters_by_selectors() {
    let files = vec![
        file("kubernetes.embik.me.kubeconfig"),
        file("kubernetes.beckers.dev.kubeconfig"),
        file("kubernetes.not.embik.me.kubeconfig"),
        file("unrecorded.kubeconfig"),
        file("unlabelled.kubeconfig"),
    ];
    let metadata = Metadata::new()
        .set(
            "kubernetes.embik.me".to_string(),
            labelled(&[("location", "nonexistent"), ("owner", "embik")]),
        )
        .set(
            "kubernetes.beckers.dev".to_string(),
            labelled(&[("location", "imagination"), ("owner", "embik")]),
        )
        .set(
            "kubernetes.not.embik.me".to_string(),
            labelled(&[("location", "narnia"), ("owner", "notembik")]),
        )
        .set("unlabelled".to_string(), ConfigMetadata { labels: None });

    let by = |s: &[&str]| -> Vec<String> {
        let parsed = s.iter().map(|x| selectors::parse(x).unwrap()).collect();
        names(&list(&files, &metadata, Some(parsed)))
    };
    assert_eq!(by(&["location=imagination"]), strings(&["kubernetes.beckers.dev"]));
    assert_eq!(
        by(&["location!=imagination"]),
        strings(&["kubernetes.embik.me", "kubernetes.not.embik.me"])
    );
    assert_eq!(
        by(&["owner=embik"]),
        strings(&["kubernetes.beckers.dev", "kubernetes.embik.me"])
    );
    assert_eq!(
        by(&["owner=embik", "location=nonexistent"]),
        strings(&["kubernetes.embik.me"])
    );
    // without a selector every entry is shown, recorded or not
    assert_eq!(
        by(&[]),
        strings(&[
            "kubernetes.beckers.dev",
            "kubernetes.embik.me",
            "kubernetes.not.embik.me",
            "unlabelled",
            "unrecorded"
        ])
    );
}

#[test]
fn list_with_selectors_carries_the_labels() {
    let files = vec![
        file("a.kubeconfig"),
        file("b.kubeconfig"),
        file("c.kubeconfig"),
    ];
    let metadata = Metadata::new()
        .set("a".to_string(), labelled(&[("x", "1")]))
        .set("b".to_string(), ConfigMetadata { labels: None });
    let listed = list(&files, &metadata, Some(vec![]));
    assert_eq!(names(&listed), strings(&["a", "b", "c"]));
    assert_eq!(
        listed[0].labels.as_ref().unwrap().get("x"),
        Some(&"1".to_string())
    );
    assert_eq!(listed[1].labels.as_ref().unwrap().len(), 0);
    assert!(listed[2].labels.is_none());
}
