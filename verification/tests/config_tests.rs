use prezel::commit::{choose_build_recipe, BuildRecipe};
use prezel::config::{
    Build, ConfigError, DeploymentConfig, FlatDeploymentConfig, Visibility,
};

fn b(s: &str) -> Vec<u8> {
    s.as_bytes().to_vec()
}

#[test]
fn test_two_way_conversion() {
    let config = DeploymentConfig {
        visibility: Some(Visibility::Public),
        build: Some(Build::Dockerfile { path: Some(b("some/path")) }),
    };
    let flat: FlatDeploymentConfig = config.to_flat();
    let back: DeploymentConfig = DeploymentConfig::try_from_flat(flat).unwrap();
    assert_eq!(config, back);
}

#[test]
fn flat_form_uses_the_stored_strings() {
    let config = DeploymentConfig {
        visibility: Some(Visibility::Private),
        build: Some(Build::Dockerfile { path: None }),
    };
    let flat = config.to_flat();
    assert_eq!(flat.visibility, Some(b("private")));
    assert_eq!(flat.backend, Some(b("dockerfile")));
    assert_eq!(flat.dockerfile_path, None);
    assert_eq!(flat.provider, None);
}

#[test]
fn unknown_strings_are_rejected() {
    let flat = FlatDeploymentConfig {
        visibility: Some(b("sneaky")),
        backend: None,
        dockerfile_path: None,
        provider: None,
    };
    assert_eq!(
        DeploymentConfig::try_from_flat(flat),
        Err(ConfigError::UnknownVisibility)
    );
    let flat = FlatDeploymentConfig {
        visibility: None,
        backend: Some(b("buildpack")),
        dockerfile_path: None,
        provider: None,
    };
    assert_eq!(
        DeploymentConfig::try_from_flat(flat),
        Err(ConfigError::UnknownBackend)
    );
}

#[test]
fn getters_follow_the_stored_build() {
    let unset = DeploymentConfig { visibility: None, build: None };
    assert_eq!(unset.get_visibility(), Visibility::Standard);
    assert_eq!(unset.get_forced_dockerfile(), None);
    assert!(!unset.is_forced_nixpacks());

    let pinned = DeploymentConfig {
        visibility: Some(Visibility::Public),
        build: Some(Build::Dockerfile { path: Some(b("deploy/Dockerfile")) }),
    };
    assert_eq!(pinned.get_visibility(), Visibility::Public);
    assert_eq!(pinned.get_forced_dockerfile(), Some(b("deploy/Dockerfile")));

    let defaulted = DeploymentConfig {
        visibility: None,
        build: Some(Build::Dockerfile { path: None }),
    };
    assert_eq!(defaulted.get_forced_dockerfile(), Some(b("Dockerfile")));

    let nix = DeploymentConfig {
        visibility: None,
        build: Some(Build::Nixpacks { provider: None }),
    };
    assert!(nix.is_forced_nixpacks());
    assert_eq!(nix.get_forced_dockerfile(), None);
}

#[test]
fn nixpacks_round_trips_with_its_provider() {
    let config = DeploymentConfig {
        visibility: None,
        build: Some(Build::Nixpacks { provider: Some(b("astro")) }),
    };
    let flat = config.to_flat();
    assert_eq!(flat.backend, Some(b("nixpacks")));
    assert_eq!(flat.dockerfile_path, None);
    assert_eq!(flat.provider, Some(b("astro")));
    let back = DeploymentConfig::try_from_flat(flat).unwrap();
    assert_eq!(back, config);
}

#[test]
fn build_recipe_decision() {
    let pinned = DeploymentConfig {
        visibility: None,
        build: Some(Build::Dockerfile { path: Some(b("sub/Dockerfile")) }),
    };
    assert_eq!(
        choose_build_recipe(&pinned, false),
        BuildRecipe::Dockerfile { path: b("sub/Dockerfile") }
    );
    let nix = DeploymentConfig {
        visibility: None,
        build: Some(Build::Nixpacks { provider: None }),
    };
    assert_eq!(choose_build_recipe(&nix, true), BuildRecipe::Nixpacks);
    let unset = DeploymentConfig { visibility: None, build: None };
    assert_eq!(
        choose_build_recipe(&unset, true),
        BuildRecipe::Dockerfile { path: b("Dockerfile") }
    );
    assert_eq!(choose_build_recipe(&unset, false), BuildRecipe::Nixpacks);
}
