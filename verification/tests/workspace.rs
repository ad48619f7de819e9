use eevee_eval::workspace::workspace_members;

fn by_the_standard_library(toml: &str) -> Vec<String> {
    let mut in_workspace = false;
    for line in toml.lines() {
        let t = line.trim();
        if t == "[workspace]" {
            in_workspace = true;
            continue;
        }
        if t.starts_with('[') {
            in_workspace = false;
        }
        if in_workspace && t.starts_with("members") {
            if let Some(list) = t.split('[').nth(1).and_then(|s| s.split(']').next()) {
                return list
                    .split(',')
                    .map(|s| s.trim().trim_matches('"').to_string())
                    .filter(|s| !s.is_empty())
                    .collect();
            }
        }
    }
    vec![]
}

#[test]
fn members_are_read_off_a_manifest() {
    let toml = "[package]\nname = \"eevee-eval\"\n\n[workspace]\n\
                members = [\"nes-tetris\", \"tetris-c\"]\n";
    assert_eq!(workspace_members(toml), ["nes-tetris", "tetris-c"]);
}

#[test]
fn members_of_other_sections_do_not_count() {
    let toml = "members = [\"a\"]\n[workspace.package]\nmembers = [\"b\"]\n[workspace]\n\
                [dependencies]\nmembers = [\"c\"]\n";
    assert!(workspace_members(toml).is_empty());
}

#[test]
fn lists_need_an_opening_bracket_on_their_line() {
    let toml = "[workspace]\nmembers =\nmembers = [\n  \"a\",\n]\n";
    assert!(workspace_members(toml).is_empty());
    let toml = "[workspace]\nmembers =\nmembers = [ \"a\" , , \"\" , b ";
    assert_eq!(workspace_members(toml), ["a", "b"]);
}

#[test]
fn manifests_are_read_as_the_standard_library_would() {
    let manifests = [
        "",
        "\n\n",
        "[workspace]",
        "  [workspace]  \r\n\tmembers=[\"a\",\"b\"]\r\n",
        "[workspace]\nresolver = \"2\"\nmembers = [\"\"\"x\"\", \" y \", z]",
        "[workspace]\nmembers_extra = [\"odd\"] # [\"more\"]",
        "[workspace]\nmembers = [[\"nested\"]]",
        "[workspace]\nmembers = ]\"before\"[\"after\"]",
        "[workspace]\n[workspace]\nmembers = [\"é\", \"🯰\"]",
        "[other]\n[workspace]\n[[bin]]\nmembers = [\"a\"]\n[workspace]\nmembers = [\"b\"]",
        "[workspace] # comment\nmembers = [\"a\"]",
        "[workspace]\n# members = [\"no\"]\n members = [ ]\nmembers = [\"late\"]",
        "[workspace]\rmembers = [\"a\"]",
    ];
    for toml in manifests {
        assert_eq!(workspace_members(toml), by_the_standard_library(toml), "{toml:?}");
    }
}
