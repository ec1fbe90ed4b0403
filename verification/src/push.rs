//! Pushing after a commit: how a git remote is labelled for the user and
//! which push interaction a commit session offers.
use vstd::prelude::*;

use crate::text::{
    clone_opt, concat2, concat3, lowercase, opt_view, str_equals, to_lowercase, trim, trim_str,
};
use vstd::string::StringExecFns;

verus! {

broadcast use vstd::string::group_string_axioms;

/// What is known of the hosting service behind a remote. Each field is
/// absent for hosts the assistant does not recognise.
pub struct GitProvider {
    /// Display name, e.g. "GitHub".
    pub label: Option<String>,
    /// Nerd Font glyph for the host.
    pub nerd_font_icon: Option<String>,
    /// Emoji for the host.
    pub emoji_icon: Option<String>,
    /// Path segment of commit pages, e.g. "commit".
    pub commit_path: Option<String>,
}

impl GitProvider {
    /// A host nothing is known of.
    pub fn unknown() -> (r: GitProvider)
        ensures
            r.label is None,
            r.nerd_font_icon is None,
            r.emoji_icon is None,
            r.commit_path is None,
    {
        GitProvider { label: None, nerd_font_icon: None, emoji_icon: None, commit_path: None }
    }
}

/// A configured git remote.
pub struct GitRemoteMetadata {
    pub name: String,
    pub fetch_url: Option<String>,
    pub push_url: Option<String>,
    pub web_url: Option<String>,
    pub provider: GitProvider,
}

/// How remotes are decorated in prompts.
#[derive(Debug, Clone, Copy, PartialEq, Eq, Structural)]
pub enum RemoteIconStyle {
    Auto,
    NerdFont,
    Emoji,
    Label,
}

/// The icon style a normalised (trimmed, lower-cased) setting names.
pub open spec fn icon_style_named(s: Seq<char>) -> RemoteIconStyle {
    if s == "nerd"@ || s == "nerd-font"@ || s == "nerdfont"@ {
        RemoteIconStyle::NerdFont
    } else if s == "emoji"@ {
        RemoteIconStyle::Emoji
    } else if s == "label"@ || s == "labels"@ || s == "none"@ || s == "off"@ {
        RemoteIconStyle::Label
    } else {
        RemoteIconStyle::Auto
    }
}

/// The icon style a configuration value selects (case and surrounding
/// whitespace ignored).
pub open spec fn icon_style_of(value: Seq<char>) -> RemoteIconStyle {
    icon_style_named(lowercase(trim(value)))
}

impl RemoteIconStyle {
    /// The style a normalised (trimmed, lower-cased) setting names.
    pub fn from_normalized(s: &str) -> (r: RemoteIconStyle)
        ensures
            r == icon_style_named(s@),
    {
        if str_equals(s, "nerd") || str_equals(s, "nerd-font") || str_equals(s, "nerdfont") {
            RemoteIconStyle::NerdFont
        } else if str_equals(s, "emoji") {
            RemoteIconStyle::Emoji
        } else if str_equals(s, "label") || str_equals(s, "labels") || str_equals(s, "none")
            || str_equals(s, "off") {
            RemoteIconStyle::Label
        } else {
            RemoteIconStyle::Auto
        }
    }

    /// The style a configuration value selects.
    pub fn from_config(value: &str) -> (r: RemoteIconStyle)
        ensures
            r == icon_style_of(value@),
    {
        let trimmed = trim_str(value);
        let lower = to_lowercase(trimmed.as_str());
        Self::from_normalized(lower.as_str())
    }
}

/// The icon shown for a provider in a style.
pub open spec fn provider_icon(p: GitProvider, style: RemoteIconStyle) -> Option<Seq<char>> {
    match style {
        RemoteIconStyle::Auto | RemoteIconStyle::NerdFont => match opt_view(p.nerd_font_icon) {
            Some(i) => Some(i),
            None => opt_view(p.emoji_icon),
        },
        RemoteIconStyle::Emoji => opt_view(p.emoji_icon),
        RemoteIconStyle::Label => None,
    }
}

/// The provider tag, e.g. "<icon> GitHub", or nothing for unknown hosts.
pub open spec fn provider_display(p: GitProvider, style: RemoteIconStyle) -> Option<Seq<char>> {
    match opt_view(p.label) {
        None => None,
        Some(label) => Some(
            match provider_icon(p, style) {
                Some(icon) => icon + " "@ + label,
                None => label,
            },
        ),
    }
}

/// The provider tag for a style.
pub fn provider_display_label(provider: &GitProvider, style: RemoteIconStyle) -> (r: Option<
    String,
>)
    ensures
        opt_view(r) == provider_display(*provider, style),
{
    let label = match &provider.label {
        Some(l) => l,
        None => return None,
    };
    let icon: Option<&String> = match style {
        RemoteIconStyle::Auto | RemoteIconStyle::NerdFont => match &provider.nerd_font_icon {
            Some(i) => Some(i),
            None => match &provider.emoji_icon {
                Some(i) => Some(i),
                None => None,
            },
        },
        RemoteIconStyle::Emoji => match &provider.emoji_icon {
            Some(i) => Some(i),
            None => None,
        },
        RemoteIconStyle::Label => None,
    };
    match icon {
        Some(i) => Some(concat3(i.as_str(), " ", label.as_str())),
        None => Some(label.clone()),
    }
}

/// Prompt label like "[<icon> GitHub] origin"; never includes the URL.
pub open spec fn short_label(remote: GitRemoteMetadata, icon_style: Seq<char>) -> Seq<char> {
    match provider_display(remote.provider, icon_style_of(icon_style)) {
        Some(p) => "["@ + p + "] "@ + remote.name@,
        None => remote.name@,
    }
}

/// Summary label like "origin (GitHub)"; just the name for unknown hosts.
pub open spec fn summary_label(remote: GitRemoteMetadata) -> Seq<char> {
    match opt_view(remote.provider.label) {
        Some(l) => remote.name@ + " ("@ + l + ")"@,
        None => remote.name@,
    }
}

/// Base URL of commit pages on the remote's host (append "/<hash>").
pub open spec fn commit_base(remote: GitRemoteMetadata) -> Option<Seq<char>> {
    match (opt_view(remote.web_url), opt_view(remote.provider.commit_path)) {
        (Some(web), Some(path)) => Some(web + "/"@ + path),
        _ => None,
    }
}

/// Prompt label for a remote.
pub fn remote_short_label(remote: &GitRemoteMetadata, icon_style: &str) -> (r: String)
    ensures
        r@ == short_label(*remote, icon_style@),
{
    let style = RemoteIconStyle::from_config(icon_style);
    match provider_display_label(&remote.provider, style) {
        Some(p) => {
            let mut r = concat3("[", p.as_str(), "] ");
            r.append(remote.name.as_str());
            r
        },
        None => remote.name.clone(),
    }
}

/// Summary label for a remote.
pub fn remote_summary_label(remote: &GitRemoteMetadata) -> (r: String)
    ensures
        r@ == summary_label(*remote),
{
    match &remote.provider.label {
        Some(l) => {
            let mut r = concat3(remote.name.as_str(), " (", l.as_str());
            r.append(")");
            r
        },
        None => remote.name.clone(),
    }
}

/// Commit-page base URL for a remote, when its host has a commit-path
/// convention and a web URL is known.
pub fn commit_url_base(remote: &GitRemoteMetadata) -> (r: Option<String>)
    ensures
        opt_view(r) == commit_base(*remote),
{
    match (&remote.web_url, &remote.provider.commit_path) {
        (Some(web), Some(path)) => Some(concat3(web.as_str(), "/", path.as_str())),
        _ => None,
    }
}

/// A remote offered for pushing.
#[derive(Debug, Clone, PartialEq, Eq)]
pub struct PushRemoteOption {
    pub name: String,
    /// Prompt label, e.g. "[<icon> GitHub] origin".
    pub label: String,
    /// Summary label, e.g. "origin (GitHub)".
    pub summary: String,
    /// Commit-page base URL on the remote's host (append "/<hash>").
    pub commit_url_base: Option<String>,
}

/// The value of a [`PushRemoteOption`].
pub struct PushRemoteOptionModel {
    pub name: Seq<char>,
    pub label: Seq<char>,
    pub summary: Seq<char>,
    pub commit_url_base: Option<Seq<char>>,
}

impl View for PushRemoteOption {
    type V = PushRemoteOptionModel;

    open spec fn view(&self) -> PushRemoteOptionModel {
        PushRemoteOptionModel {
            name: self.name@,
            label: self.label@,
            summary: self.summary@,
            commit_url_base: opt_view(self.commit_url_base),
        }
    }
}

/// The push interaction after a commit.
#[derive(Debug, Clone, PartialEq, Eq)]
pub enum PushPlan {
    Skip,
    AutoPush(PushRemoteOption),
    ConfirmSingle { remote: PushRemoteOption },
    SelectRemote(Vec<PushRemoteOption>),
}

/// The value of a [`PushPlan`].
pub enum PushPlanModel {
    Skip,
    AutoPush(PushRemoteOptionModel),
    ConfirmSingle(PushRemoteOptionModel),
    SelectRemote(Seq<PushRemoteOptionModel>),
}

impl View for PushPlan {
    type V = PushPlanModel;

    open spec fn view(&self) -> PushPlanModel {
        match self {
            PushPlan::Skip => PushPlanModel::Skip,
            PushPlan::AutoPush(o) => PushPlanModel::AutoPush(o@),
            PushPlan::ConfirmSingle { remote } => PushPlanModel::ConfirmSingle(remote@),
            PushPlan::SelectRemote(v) => PushPlanModel::SelectRemote(
                v@.map_values(|o: PushRemoteOption| o@),
            ),
        }
    }
}

/// Why no push plan could be made.
#[derive(Debug, Clone, Copy, PartialEq, Eq, Structural)]
pub enum PushPlanError {
    /// `--yes` was given but there is more than one remote to choose from.
    MultipleRemotesWithAutoPush,
}

/// The text shown when `--yes` meets several remotes.
pub const MULTI_REMOTE_AUTO_PUSH_ERROR: &'static str = "cannot auto-push with --yes because multiple remotes are configured; rerun without --yes to choose a remote or set AIC_GITPUSH=false";

impl PushPlanError {
    /// The text shown for this error.
    pub fn message(&self) -> (r: String)
        ensures
            r@ == MULTI_REMOTE_AUTO_PUSH_ERROR@,
    {
        String::from_str(MULTI_REMOTE_AUTO_PUSH_ERROR)
    }
}

/// The option offered for a remote.
pub open spec fn remote_option(remote: GitRemoteMetadata, icon_style: Seq<char>) -> PushRemoteOptionModel {
    PushRemoteOptionModel {
        name: remote.name@,
        label: short_label(remote, icon_style),
        summary: summary_label(remote),
        commit_url_base: commit_base(remote),
    }
}

/// The push plan for a session: nothing when pushing is off or there is no
/// remote; a single remote is pushed to directly with `--yes` and confirmed
/// otherwise; several remotes are offered for selection, which `--yes`
/// cannot answer.
pub open spec fn push_plan(
    gitpush: bool,
    skip_confirmation: bool,
    remotes: Seq<GitRemoteMetadata>,
    icon_style: Seq<char>,
) -> Result<PushPlanModel, PushPlanError> {
    let options = remotes.map_values(|r: GitRemoteMetadata| remote_option(r, icon_style));
    if !gitpush || remotes.len() == 0 {
        Ok(PushPlanModel::Skip)
    } else if remotes.len() == 1 && skip_confirmation {
        Ok(PushPlanModel::AutoPush(options[0]))
    } else if remotes.len() == 1 {
        Ok(PushPlanModel::ConfirmSingle(options[0]))
    } else if skip_confirmation {
        Err(PushPlanError::MultipleRemotesWithAutoPush)
    } else {
        Ok(PushPlanModel::SelectRemote(options))
    }
}

/// The view of a push-plan result.
pub open spec fn plan_result_view(r: Result<PushPlan, PushPlanError>) -> Result<
    PushPlanModel,
    PushPlanError,
> {
    match r {
        Ok(p) => Ok(p@),
        Err(e) => Err(e),
    }
}

/// Decides the push interaction after a commit.
pub fn build_push_plan(
    gitpush: bool,
    skip_confirmation: bool,
    remotes: &[GitRemoteMetadata],
    icon_style: &str,
) -> (r: Result<PushPlan, PushPlanError>)
    ensures
        plan_result_view(r) == push_plan(gitpush, skip_confirmation, remotes@, icon_style@),
{
    if !gitpush || remotes.len() == 0 {
        return Ok(PushPlan::Skip);
    }
    let ghost expected = remotes@.map_values(
        |r: GitRemoteMetadata| remote_option(r, icon_style@),
    );
    let mut options: Vec<PushRemoteOption> = Vec::new();
    let mut i: usize = 0;
    while i < remotes.len()
        invariant
            i <= remotes.len(),
            expected == remotes@.map_values(|r: GitRemoteMetadata| remote_option(r, icon_style@)),
            options@.len() == i,
            forall|k: int| 0 <= k < i ==> (#[trigger] options@[k])@ == expected[k],
        decreases remotes.len() - i,
    {
        let remote = &remotes[i];
        let option = PushRemoteOption {
            name: remote.name.clone(),
            label: remote_short_label(remote, icon_style),
            summary: remote_summary_label(remote),
            commit_url_base: commit_url_base(remote),
        };
        options.push(option);
        i = i + 1;
    }
    if options.len() == 1 {
        let option = options.pop().unwrap();
        if skip_confirmation {
            Ok(PushPlan::AutoPush(option))
        } else {
            Ok(PushPlan::ConfirmSingle { remote: option })
        }
    } else if skip_confirmation {
        Err(PushPlanError::MultipleRemotesWithAutoPush)
    } else {
        let r = PushPlan::SelectRemote(options);
        assert(options@.map_values(|o: PushRemoteOption| o@) =~= expected);
        Ok(r)
    }
}

/// Pushing is skipped exactly when it is turned off or there is no remote.
pub proof fn law_push_skipped_iff_disabled_or_no_remote(
    gitpush: bool,
    skip_confirmation: bool,
    remotes: Seq<GitRemoteMetadata>,
    icon_style: Seq<char>,
)
    ensures
        push_plan(gitpush, skip_confirmation, remotes, icon_style) == Ok::<
            PushPlanModel,
            PushPlanError,
        >(PushPlanModel::Skip) <==> (!gitpush || remotes.len() == 0),
{
}

/// The only refusal is `--yes` with more than one remote to choose from.
pub proof fn law_push_refused_iff_ambiguous_auto_push(
    gitpush: bool,
    skip_confirmation: bool,
    remotes: Seq<GitRemoteMetadata>,
    icon_style: Seq<char>,
)
    ensures
        push_plan(gitpush, skip_confirmation, remotes, icon_style) is Err <==> (gitpush
            && skip_confirmation && remotes.len() >= 2),
{
}

/// The configuration values name their styles: "nerd", "nerd-font" and
/// "nerdfont" the Nerd Font icons, "emoji" the emoji, and "label", "labels",
/// "none" and "off" the plain label; case and surrounding whitespace do not
/// matter, and any other value is `Auto`.
pub proof fn law_icon_style_values(value: Seq<char>)
    ensures
        lowercase(trim(value)) == "nerd"@ ==> icon_style_of(value) == RemoteIconStyle::NerdFont,
        lowercase(trim(value)) == "nerd-font"@ ==> icon_style_of(value)
            == RemoteIconStyle::NerdFont,
        lowercase(trim(value)) == "nerdfont"@ ==> icon_style_of(value)
            == RemoteIconStyle::NerdFont,
        lowercase(trim(value)) == "emoji"@ ==> icon_style_of(value) == RemoteIconStyle::Emoji,
        lowercase(trim(value)) == "label"@ ==> icon_style_of(value) == RemoteIconStyle::Label,
        lowercase(trim(value)) == "labels"@ ==> icon_style_of(value) == RemoteIconStyle::Label,
        lowercase(trim(value)) == "none"@ ==> icon_style_of(value) == RemoteIconStyle::Label,
        lowercase(trim(value)) == "off"@ ==> icon_style_of(value) == RemoteIconStyle::Label,
{
    reveal_strlit("nerd");
    reveal_strlit("nerd-font");
    reveal_strlit("nerdfont");
    reveal_strlit("emoji");
    reveal_strlit("label");
    reveal_strlit("labels");
    reveal_strlit("none");
    reveal_strlit("off");
    assert("emoji"@ != "nerd"@ && "emoji"@ != "nerd-font"@ && "emoji"@ != "nerdfont"@) by {
        assert("emoji"@.len() != "nerd"@.len());
        assert("emoji"@.len() != "nerd-font"@.len());
        assert("emoji"@.len() != "nerdfont"@.len());
    }
    assert("label"@ != "nerd"@ && "label"@ != "nerd-font"@ && "label"@ != "nerdfont"@
        && "label"@ != "emoji"@) by {
        assert("label"@.len() != "nerd"@.len());
        assert("label"@.len() != "nerd-font"@.len());
        assert("label"@.len() != "nerdfont"@.len());
        assert("label"@[0] != "emoji"@[0]);
    }
    assert("labels"@ != "nerd"@ && "labels"@ != "nerd-font"@ && "labels"@ != "nerdfont"@
        && "labels"@ != "emoji"@) by {
        assert("labels"@.len() != "nerd"@.len());
        assert("labels"@.len() != "nerd-font"@.len());
        assert("labels"@.len() != "nerdfont"@.len());
        assert("labels"@.len() != "emoji"@.len());
    }
    assert("none"@ != "nerd"@ && "none"@ != "nerd-font"@ && "none"@ != "nerdfont"@
        && "none"@ != "emoji"@) by {
        assert("none"@[1] != "nerd"@[1]);
        assert("none"@.len() != "nerd-font"@.len());
        assert("none"@.len() != "nerdfont"@.len());
        assert("none"@.len() != "emoji"@.len());
    }
    assert("off"@ != "nerd"@ && "off"@ != "nerd-font"@ && "off"@ != "nerdfont"@ && "off"@
        != "emoji"@) by {
        assert("off"@.len() != "nerd"@.len());
        assert("off"@.len() != "nerd-font"@.len());
        assert("off"@.len() != "nerdfont"@.len());
        assert("off"@.len() != "emoji"@.len());
    }
}

/// Under the label style a remote's prompt label carries no icon: it is the
/// host's name in brackets before the remote's name, or just the remote's
/// name for an unknown host, whatever icons the host has.
pub proof fn law_label_style_shows_no_icon(remote: GitRemoteMetadata, icon_style: Seq<char>)
    requires
        icon_style_of(icon_style) == RemoteIconStyle::Label,
    ensures
        short_label(remote, icon_style) == match remote.provider.label {
            Some(l) => "["@ + l@ + "] "@ + remote.name@,
            None => remote.name@,
        },
{
}

/// Under the emoji style the icon shown is the host's emoji, and under the
/// Nerd Font or automatic style the Nerd Font glyph, or the emoji when the
/// host has none.
pub proof fn law_icon_styles_pick_icons(p: GitProvider, style: RemoteIconStyle)
    requires
        p.label is Some,
    ensures
        style == RemoteIconStyle::Emoji ==> provider_display(p, style) == match p.emoji_icon {
            Some(e) => Some(e@ + " "@ + p.label.unwrap()@),
            None => Some(p.label.unwrap()@),
        },
        (style == RemoteIconStyle::NerdFont || style == RemoteIconStyle::Auto) ==> provider_display(
            p,
            style,
        ) == match (p.nerd_font_icon, p.emoji_icon) {
            (Some(n), _) => Some(n@ + " "@ + p.label.unwrap()@),
            (None, Some(e)) => Some(e@ + " "@ + p.label.unwrap()@),
            (None, None) => Some(p.label.unwrap()@),
        },
{
}

} // verus!
