use aicommit::push::{
    build_push_plan, commit_url_base, remote_short_label, remote_summary_label, GitProvider,
    GitRemoteMetadata, PushPlan, PushPlanError, PushRemoteOption, RemoteIconStyle,
    MULTI_REMOTE_AUTO_PUSH_ERROR,
};

fn remote(name: &str) -> GitRemoteMetadata {
    GitRemoteMetadata {
        name: name.to_owned(),
        fetch_url: None,
        push_url: None,
        web_url: None,
        provider: GitProvider::unknown(),
    }
}

fn github() -> GitProvider {
    GitProvider {
        label: Some("GitHub".to_owned()),
        nerd_font_icon: Some("N".to_owned()),
        emoji_icon: Some("E".to_owned()),
        commit_path: Some("commit".to_owned()),
    }
}

fn plain_option(name: &str) -> PushRemoteOption {
    PushRemoteOption {
        name: name.to_owned(),
        label: name.to_owned(),
        summary: name.to_owned(),
        commit_url_base: None,
    }
}

#[test]
fn push_plan_skips_when_push_is_disabled() {
    let plan = build_push_plan(false, false, &[remote("origin")], "auto").unwrap();
    assert_eq!(plan, PushPlan::Skip);
}

#[test]
fn push_plan_skips_when_no_remotes_exist() {
    let plan = build_push_plan(true, false, &[], "auto").unwrap();
    assert_eq!(plan, PushPlan::Skip);
}

#[test]
fn push_plan_auto_pushes_single_remote_with_yes() {
    let plan = build_push_plan(true, true, &[remote("origin")], "auto").unwrap();
    assert_eq!(plan, PushPlan::AutoPush(plain_option("origin")));
}

#[test]
fn push_plan_prompts_single_remote_with_default_yes() {
    let plan = build_push_plan(true, false, &[remote("origin")], "auto").unwrap();
    assert_eq!(
        plan,
        PushPlan::ConfirmSingle {
            remote: plain_option("origin")
        }
    );
}

#[test]
fn push_plan_rejects_multiple_remotes_with_yes() {
    let error =
        build_push_plan(true, true, &[remote("origin"), remote("backup")], "auto").unwrap_err();
    assert_eq!(error.message(), MULTI_REMOTE_AUTO_PUSH_ERROR);
    assert_eq!(error, PushPlanError::MultipleRemotesWithAutoPush);
}

#[test]
fn labels_unknown_remote_by_name_without_url() {
    let remote = GitRemoteMetadata {
        name: "mirror".to_owned(),
        fetch_url: Some("https://git.example.test/team/repo.git".to_owned()),
        push_url: Some("https://git.example.test/team/repo.git".to_owned()),
        web_url: Some("https://git.example.test/team/repo".to_owned()),
        provider: GitProvider::unknown(),
    };

    assert_eq!(remote_short_label(&remote, "auto"), "mirror");
    assert_eq!(remote_summary_label(&remote), "mirror");
    assert_eq!(commit_url_base(&remote), None);
}

#[test]
fn push_plan_selects_among_several_remotes() {
    let plan = build_push_plan(true, false, &[remote("origin"), remote("backup")], "auto").unwrap();
    assert_eq!(
        plan,
        PushPlan::SelectRemote(vec![plain_option("origin"), plain_option("backup")])
    );
}

#[test]
fn known_host_labels_follow_icon_style() {
    let r = GitRemoteMetadata {
        name: "origin".to_owned(),
        fetch_url: None,
        push_url: None,
        web_url: Some("https://github.com/o/r".to_owned()),
        provider: github(),
    };
    assert_eq!(remote_short_label(&r, "auto"), "[N GitHub] origin");
    assert_eq!(remote_short_label(&r, "  Nerd-Font "), "[N GitHub] origin");
    assert_eq!(remote_short_label(&r, "EMOJI"), "[E GitHub] origin");
    assert_eq!(remote_short_label(&r, "off"), "[GitHub] origin");
    assert_eq!(remote_summary_label(&r), "origin (GitHub)");
    assert_eq!(commit_url_base(&r), Some("https://github.com/o/r/commit".to_owned()));
}

#[test]
fn icon_style_is_read_case_and_space_insensitively() {
    assert_eq!(RemoteIconStyle::from_config(" Labels\t"), RemoteIconStyle::Label);
    assert_eq!(RemoteIconStyle::from_config("NERDFONT"), RemoteIconStyle::NerdFont);
    assert_eq!(RemoteIconStyle::from_config("emoji"), RemoteIconStyle::Emoji);
    assert_eq!(RemoteIconStyle::from_config("whatever"), RemoteIconStyle::Auto);
    assert_eq!(RemoteIconStyle::from_normalized("NERD"), RemoteIconStyle::Auto);
}

#[test]
fn emoji_falls_back_when_no_nerd_icon() {
    let mut p = github();
    p.nerd_font_icon = None;
    let r = GitRemoteMetadata { name: "o".into(), fetch_url: None, push_url: None, web_url: None, provider: p };
    assert_eq!(remote_short_label(&r, "nerd"), "[E GitHub] o");
    assert_eq!(commit_url_base(&r), None);
}
