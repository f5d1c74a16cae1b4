//! First-run setup wizard progress.
//!
//! The onboarding flow is spread over several menus, but to the user it is one
//! guided wizard. This module projects the onboarding state onto that wizard:
//! a `Step N of M` header, a one-line purpose for the current step, a footer
//! naming the next action, and a checklist of every step with its mark.

use vstd::prelude::*;
use crate::text::{decimal, push_char, push_decimal};
use crate::i18n::{args_view, interpolate, interpolate_spec};

verus! {

// ---------------------------------------------------------------------------
// Onboarding state read by the wizard
// ---------------------------------------------------------------------------

/// The provider route picked in the provider menu.
#[derive(Debug, Clone, Default, PartialEq, Eq)]
pub struct OnboardingProviderRoute {
    pub route_id: String,
    /// The route was saved as the profile's fallback rather than its primary.
    pub fallback: bool,
}

/// Model family, model and route picked in the provider menu.
#[derive(Debug, Clone, Default, PartialEq, Eq)]
pub struct OnboardingProviderSelection {
    pub family_id: String,
    pub model_id: String,
    pub route: OnboardingProviderRoute,
}

/// Where the provider selection stands with respect to the profile.
#[derive(Debug, Clone, Copy, PartialEq, Eq, Structural)]
pub enum OnboardingProviderStatus {
    NotSaved,
    SavedPrimary,
    SavedFallback,
}

/// The outcome of validating the staged workspace folder.
#[derive(Debug, Clone, PartialEq, Eq)]
pub enum OnboardingWorkspaceValidation {
    NotChecked,
    Valid { canonical: String, writable: bool, has_workspace_toml: bool },
    Invalid { reason: String },
}

/// The onboarding state the wizard is projected from.
#[derive(Debug, Clone, PartialEq, Eq)]
pub struct OnboardingWizardState {
    /// The profile created (or picked) during onboarding.
    pub profile_id: Option<String>,
    pub provider: OnboardingProviderSelection,
    /// The route passed a live test with the entered key.
    pub provider_tested: bool,
    /// The verified provider was written into the profile.
    pub provider_saved: bool,
    pub workspace_validation: OnboardingWorkspaceValidation,
}

impl Default for OnboardingWizardState {
    fn default() -> (s: Self)
        ensures
            s.profile_id is None,
            s.provider.family_id@.len() == 0,
            s.provider.model_id@.len() == 0,
            s.provider.route.route_id@.len() == 0,
            !s.provider.route.fallback,
            !s.provider_tested,
            !s.provider_saved,
            s.workspace_validation is NotChecked,
    {
        OnboardingWizardState {
            profile_id: None,
            provider: OnboardingProviderSelection {
                family_id: String::new(),
                model_id: String::new(),
                route: OnboardingProviderRoute { route_id: String::new(), fallback: false },
            },
            provider_tested: false,
            provider_saved: false,
            workspace_validation: OnboardingWorkspaceValidation::NotChecked,
        }
    }
}

impl OnboardingWizardState {
    /// The profile onboarding works on: the one it created, else the one the
    /// session already runs under.
    pub open spec fn effective_profile_spec(&self, current: Option<Seq<char>>) -> Option<Seq<char>> {
        match self.profile_id {
            Some(p) => Some(p@),
            None => current,
        }
    }

    pub fn effective_profile_id(&self, current_profile: Option<&str>) -> (r: Option<String>)
        ensures
            match r {
                Some(s) => self.effective_profile_spec(
                    match current_profile {
                        Some(c) => Some(c@),
                        None => None,
                    },
                ) == Some(s@),
                None => self.effective_profile_spec(
                    match current_profile {
                        Some(c) => Some(c@),
                        None => None,
                    },
                ) is None,
            },
    {
        match &self.profile_id {
            Some(p) => Some(p.clone()),
            None => match current_profile {
                Some(c) => Some(c.to_owned()),
                None => None,
            },
        }
    }

    /// Family, model and route are all chosen.
    pub open spec fn selection_ready_spec(&self) -> bool {
        &&& self.provider.family_id@.len() > 0
        &&& self.provider.model_id@.len() > 0
        &&& self.provider.route.route_id@.len() > 0
    }

    pub fn selection_ready(&self) -> (b: bool)
        ensures
            b == self.selection_ready_spec(),
    {
        !self.provider.family_id.as_str().is_empty() && !self.provider.model_id.as_str().is_empty()
            && !self.provider.route.route_id.as_str().is_empty()
    }

    pub open spec fn provider_status_spec(&self) -> OnboardingProviderStatus {
        if !self.provider_saved {
            OnboardingProviderStatus::NotSaved
        } else if self.provider.route.fallback {
            OnboardingProviderStatus::SavedFallback
        } else {
            OnboardingProviderStatus::SavedPrimary
        }
    }

    pub fn provider_status(&self) -> (s: OnboardingProviderStatus)
        ensures
            s == self.provider_status_spec(),
    {
        if !self.provider_saved {
            OnboardingProviderStatus::NotSaved
        } else if self.provider.route.fallback {
            OnboardingProviderStatus::SavedFallback
        } else {
            OnboardingProviderStatus::SavedPrimary
        }
    }
}

// ---------------------------------------------------------------------------
// Steps
// ---------------------------------------------------------------------------

/// A user-facing wizard step; the menus may have finer rows, grouped here.
#[derive(Debug, Clone, Copy, PartialEq, Eq, Structural)]
pub enum WizardStep {
    /// Create the local profile (name / username / email).
    Profile,
    /// Choose the model family, model and provider route.
    Provider,
    /// Enter the API key and verify the route with a live test.
    Connect,
    /// Save the verified provider into the profile.
    Save,
    /// Stage and validate the workspace folder the agent will code in.
    Workspace,
    /// Open the coding session.
    Activate,
}

/// How many steps the wizard has.
pub const WIZARD_STEPS: usize = 6;

/// The step at 0-based position `i` of the wizard (the last for `i >= 5`).
pub open spec fn step_at(i: int) -> WizardStep {
    if i <= 0 {
        WizardStep::Profile
    } else if i == 1 {
        WizardStep::Provider
    } else if i == 2 {
        WizardStep::Connect
    } else if i == 3 {
        WizardStep::Save
    } else if i == 4 {
        WizardStep::Workspace
    } else {
        WizardStep::Activate
    }
}

/// The 1-based position of a step.
pub open spec fn number_spec(s: WizardStep) -> nat {
    match s {
        WizardStep::Profile => 1,
        WizardStep::Provider => 2,
        WizardStep::Connect => 3,
        WizardStep::Save => 4,
        WizardStep::Workspace => 5,
        WizardStep::Activate => 6,
    }
}

/// The English short title of a step.
pub open spec fn short_title_spec(s: WizardStep) -> Seq<char> {
    match s {
        WizardStep::Profile => "Profile"@,
        WizardStep::Provider => "Provider"@,
        WizardStep::Connect => "Connect"@,
        WizardStep::Save => "Save"@,
        WizardStep::Workspace => "Workspace"@,
        WizardStep::Activate => "Activate"@,
    }
}

/// The English purpose of a step.
pub open spec fn purpose_spec(s: WizardStep) -> Seq<char> {
    match s {
        WizardStep::Profile => "Create the local profile your sessions and settings belong to."@,
        WizardStep::Provider => "Pick the model family, model and provider route the agent will use."@,
        WizardStep::Connect => "Enter the API key and prove the route works with a live test."@,
        WizardStep::Save => "Save the verified provider into your profile."@,
        WizardStep::Workspace => "Choose and validate the folder the agent will work in."@,
        WizardStep::Activate => "Open the coding session and start working."@,
    }
}

impl WizardStep {
    /// 1-based ordinal for "Step N of M".
    pub fn number(self) -> (n: usize)
        ensures
            n == number_spec(self),
            1 <= n <= WIZARD_STEPS,
            step_at(n - 1) == self,
    {
        match self {
            WizardStep::Profile => 1,
            WizardStep::Provider => 2,
            WizardStep::Connect => 3,
            WizardStep::Save => 4,
            WizardStep::Workspace => 5,
            WizardStep::Activate => 6,
        }
    }

    /// Stable key of the step (not user-facing).
    pub fn key(self) -> (k: &'static str)
        ensures
            k@ == match self {
                WizardStep::Profile => "profile"@,
                WizardStep::Provider => "provider"@,
                WizardStep::Connect => "connect"@,
                WizardStep::Save => "save"@,
                WizardStep::Workspace => "workspace"@,
                WizardStep::Activate => "activate"@,
            },
    {
        match self {
            WizardStep::Profile => "profile",
            WizardStep::Provider => "provider",
            WizardStep::Connect => "connect",
            WizardStep::Save => "save",
            WizardStep::Workspace => "workspace",
            WizardStep::Activate => "activate",
        }
    }

    /// Short checklist label, in `locale`.
    pub fn short_title(self, locale: &WizardLocale) -> (t: String)
        ensures
            t@ == locale.title_spec(self),
    {
        proof {
            use_type_invariant(locale);
        }
        let n = self.number();
        locale.step_titles[n - 1].clone()
    }

    /// One-line purpose ("why this step exists"), in `locale`.
    pub fn purpose(self, locale: &WizardLocale) -> (p: String)
        ensures
            p@ == locale.purpose_spec(self),
    {
        proof {
            use_type_invariant(locale);
        }
        let n = self.number();
        locale.purposes[n - 1].clone()
    }
}

// ---------------------------------------------------------------------------
// Translated texts
// ---------------------------------------------------------------------------

/// The translated texts of the wizard: a short title and a purpose for each
/// step, in step order, and the templates of the header (`%{number}`,
/// `%{total}`, `%{title}`), the subtitle (`%{header}`, `%{purpose}`), the
/// footer (`%{next}`) and the checklist title.
#[derive(Debug)]
pub struct WizardLocale {
    step_titles: Vec<String>,
    purposes: Vec<String>,
    header: String,
    subtitle: String,
    footer: String,
    progress_title: String,
}

impl WizardLocale {
    #[verifier::type_invariant]
    spec fn has_every_step(self) -> bool {
        &&& self.step_titles@.len() == WIZARD_STEPS
        &&& self.purposes@.len() == WIZARD_STEPS
    }

    pub closed spec fn title_spec(self, s: WizardStep) -> Seq<char> {
        self.step_titles@[number_spec(s) - 1]@
    }

    pub closed spec fn purpose_spec(self, s: WizardStep) -> Seq<char> {
        self.purposes@[number_spec(s) - 1]@
    }

    pub closed spec fn header_template(self) -> Seq<char> {
        self.header@
    }

    pub closed spec fn subtitle_template(self) -> Seq<char> {
        self.subtitle@
    }

    pub closed spec fn footer_template(self) -> Seq<char> {
        self.footer@
    }

    pub closed spec fn progress_title_spec(self) -> Seq<char> {
        self.progress_title@
    }

    /// A locale from its texts; `None` unless there is exactly one title and
    /// one purpose per step.
    pub fn new(
        step_titles: Vec<String>,
        purposes: Vec<String>,
        header: String,
        subtitle: String,
        footer: String,
        progress_title: String,
    ) -> (r: Option<WizardLocale>)
        ensures
            r is Some <==> (step_titles@.len() == WIZARD_STEPS && purposes@.len()
                == WIZARD_STEPS),
            r matches Some(l) ==> {
                &&& forall|i: int|
                    0 <= i < WIZARD_STEPS ==> #[trigger] l.title_spec(step_at(i))
                        == step_titles@[i]@ && l.purpose_spec(step_at(i)) == purposes@[i]@
                &&& l.header_template() == header@
                &&& l.subtitle_template() == subtitle@
                &&& l.footer_template() == footer@
                &&& l.progress_title_spec() == progress_title@
            },
    {
        if step_titles.len() != WIZARD_STEPS || purposes.len() != WIZARD_STEPS {
            return None;
        }
        let l = WizardLocale { step_titles, purposes, header, subtitle, footer, progress_title };
        assert forall|i: int| 0 <= i < WIZARD_STEPS implies number_spec(step_at(i)) == i + 1 by {}
        Some(l)
    }

    /// The English texts.
    pub fn english() -> (l: WizardLocale)
        ensures
            forall|s: WizardStep|
                #[trigger] l.title_spec(s) == short_title_spec(s) && l.purpose_spec(s)
                    == purpose_spec(s),
            l.header_template() == "Step %{number} of %{total} — %{title}"@,
            l.subtitle_template() == "%{header}\n%{purpose}"@,
            l.footer_template() == "Next: %{next}"@,
            l.progress_title_spec() == "Setup progress"@,
    {
        let mut step_titles: Vec<String> = Vec::new();
        let mut purposes: Vec<String> = Vec::new();
        let mut i: usize = 0;
        while i < WIZARD_STEPS
            invariant
                i <= WIZARD_STEPS,
                step_titles@.len() == i,
                purposes@.len() == i,
                forall|k: int|
                    0 <= k < i ==> (#[trigger] step_titles@[k])@ == short_title_spec(step_at(k))
                        && purposes@[k]@ == purpose_spec(step_at(k)),
            decreases WIZARD_STEPS - i,
        {
            let step = step_of(i);
            let title = english_title(step).to_owned();
            let purpose = english_purpose(step).to_owned();
            assert(title@ == short_title_spec(step_at(i as int)));
            step_titles.push(title);
            purposes.push(purpose);
            i = i + 1;
        }
        let l = WizardLocale {
            step_titles,
            purposes,
            header: "Step %{number} of %{total} — %{title}".to_owned(),
            subtitle: "%{header}\n%{purpose}".to_owned(),
            footer: "Next: %{next}".to_owned(),
            progress_title: "Setup progress".to_owned(),
        };
        assert forall|s: WizardStep|
            #[trigger] l.title_spec(s) == short_title_spec(s) && l.purpose_spec(s) == purpose_spec(
                s,
            ) by {
            let k = number_spec(s) - 1;
            assert(step_at(k) == s);
        }
        l
    }
}

fn english_title(s: WizardStep) -> (t: &'static str)
    ensures
        t@ == short_title_spec(s),
{
    match s {
        WizardStep::Profile => "Profile",
        WizardStep::Provider => "Provider",
        WizardStep::Connect => "Connect",
        WizardStep::Save => "Save",
        WizardStep::Workspace => "Workspace",
        WizardStep::Activate => "Activate",
    }
}

fn english_purpose(s: WizardStep) -> (p: &'static str)
    ensures
        p@ == purpose_spec(s),
{
    match s {
        WizardStep::Profile => "Create the local profile your sessions and settings belong to.",
        WizardStep::Provider => "Pick the model family, model and provider route the agent will use.",
        WizardStep::Connect => "Enter the API key and prove the route works with a live test.",
        WizardStep::Save => "Save the verified provider into your profile.",
        WizardStep::Workspace => "Choose and validate the folder the agent will work in.",
        WizardStep::Activate => "Open the coding session and start working.",
    }
}

/// Each step sits at the position its number names, so numbers tell steps
/// apart.
pub proof fn law_step_numbers(s: WizardStep, t: WizardStep)
    ensures
        1 <= number_spec(s) <= WIZARD_STEPS,
        step_at(number_spec(s) - 1) == s,
        number_spec(s) == number_spec(t) ==> s == t,
{
}

// ---------------------------------------------------------------------------
// Progress
// ---------------------------------------------------------------------------

/// Position of the first `false` in `done` at or after `from` (5, the
/// Activate step, when none before it is incomplete).
pub open spec fn first_incomplete_from(done: Seq<bool>, from: int) -> int
    decreases 5 - from,
{
    if from >= 5 {
        5
    } else if !done[from] {
        from
    } else {
        first_incomplete_from(done, from + 1)
    }
}

pub open spec fn first_incomplete(done: Seq<bool>) -> int {
    first_incomplete_from(done, 0)
}

/// The completion marks the wizard derives from the onboarding state.
pub open spec fn done_marks(
    state: OnboardingWizardState,
    current_profile: Option<Seq<char>>,
    local_create_supported: bool,
) -> Seq<bool> {
    seq![
        state.effective_profile_spec(current_profile) is Some || (!local_create_supported
            && current_profile is Some),
        state.selection_ready_spec(),
        state.provider_tested || state.provider_status_spec() == OnboardingProviderStatus::SavedPrimary,
        state.provider_status_spec() == OnboardingProviderStatus::SavedPrimary
            || state.provider_status_spec() == OnboardingProviderStatus::SavedFallback,
        state.workspace_validation is Valid,
        false,
    ]
}

/// Computed snapshot of the wizard's progress.
#[derive(Debug, Clone, PartialEq, Eq)]
pub struct WizardProgress {
    pub current: WizardStep,
    /// Completion mark per step, in step order.
    pub done: [bool; 6],
}

impl WizardProgress {
    /// The current step is the first incomplete one; Activate is never
    /// marked complete inside the wizard, so there always is one.
    pub open spec fn well_formed(&self) -> bool {
        &&& !self.done@[5]
        &&& self.current == step_at(first_incomplete(self.done@))
    }

    /// Progress derived from the onboarding state. `local_create_supported`
    /// says whether the Profile step is part of the flow, or is satisfied by
    /// a profile the server already resolved.
    pub fn from_state(
        state: &OnboardingWizardState,
        current_profile: Option<&str>,
        local_create_supported: bool,
    ) -> (p: WizardProgress)
        ensures
            p.done@ == done_marks(
                *state,
                match current_profile {
                    Some(c) => Some(c@),
                    None => None,
                },
                local_create_supported,
            ),
            p.well_formed(),
    {
        let profile_done = state.effective_profile_id(current_profile).is_some() || (
        !local_create_supported && current_profile.is_some());
        let provider_done = state.selection_ready();
        let status = state.provider_status();
        let connect_done = state.provider_tested || status == OnboardingProviderStatus::SavedPrimary;
        let save_done = status == OnboardingProviderStatus::SavedPrimary || status
            == OnboardingProviderStatus::SavedFallback;
        let workspace_done = match &state.workspace_validation {
            OnboardingWorkspaceValidation::Valid { .. } => true,
            _ => false,
        };
        let activate_done = false;
        let done = [profile_done, provider_done, connect_done, save_done, workspace_done, activate_done];
        let current = if !profile_done {
            WizardStep::Profile
        } else if !provider_done {
            WizardStep::Provider
        } else if !connect_done {
            WizardStep::Connect
        } else if !save_done {
            WizardStep::Save
        } else if !workspace_done {
            WizardStep::Workspace
        } else {
            WizardStep::Activate
        };
        let p = WizardProgress { current, done };
        assert(p.done@ =~= seq![profile_done, provider_done, connect_done, save_done, workspace_done, false]);
        proof {
            reveal_with_fuel(first_incomplete_from, 7);
        }
        p
    }

    /// The values the header template is filled with.
    pub open spec fn header_args(&self, locale: WizardLocale) -> Seq<(Seq<char>, Seq<char>)> {
        seq![
            ("number"@, decimal(number_spec(self.current))),
            ("total"@, decimal(WIZARD_STEPS as nat)),
            ("title"@, locale.title_spec(self.current)),
        ]
    }

    /// `Step N of M — <short title>`, as `locale` words it.
    pub open spec fn header_spec(&self, locale: WizardLocale) -> Seq<char> {
        interpolate_spec(locale.header_template(), self.header_args(locale))
    }

    pub fn header(&self, locale: &WizardLocale) -> (h: String)
        ensures
            h@ == self.header_spec(*locale),
    {
        let mut number = String::new();
        push_decimal(&mut number, self.current.number());
        let mut total = String::new();
        push_decimal(&mut total, WIZARD_STEPS);
        let title = self.current.short_title(locale);
        let names: [&str; 3] = ["number", "total", "title"];
        let mut values: Vec<String> = Vec::new();
        values.push(number);
        values.push(total);
        values.push(title);
        proof {
            reveal_strlit("number");
            reveal_strlit("total");
            reveal_strlit("title");
        }
        assert(args_view(names@, values@) =~= self.header_args(*locale));
        interpolate(locale.header.as_str(), names.as_slice(), values.as_slice())
    }

    /// The header, then the current step's purpose, as `locale` words it.
    pub open spec fn subtitle_spec(&self, locale: WizardLocale) -> Seq<char> {
        interpolate_spec(
            locale.subtitle_template(),
            seq![("header"@, self.header_spec(locale)), ("purpose"@, locale.purpose_spec(self.current))],
        )
    }

    pub fn subtitle(&self, locale: &WizardLocale) -> (s: String)
        ensures
            s@ == self.subtitle_spec(*locale),
    {
        let header = self.header(locale);
        let purpose = self.current.purpose(locale);
        let names: [&str; 2] = ["header", "purpose"];
        let mut values: Vec<String> = Vec::new();
        values.push(header);
        values.push(purpose);
        proof {
            reveal_strlit("header");
            reveal_strlit("purpose");
        }
        assert(args_view(names@, values@) =~= seq![
            ("header"@, self.header_spec(*locale)),
            ("purpose"@, locale.purpose_spec(self.current)),
        ]);
        interpolate(locale.subtitle.as_str(), names.as_slice(), values.as_slice())
    }

    /// Footer naming the next concrete action, as `locale` words it.
    pub fn footer_hint(&self, locale: &WizardLocale, next_action: &str) -> (f: String)
        ensures
            f@ == interpolate_spec(locale.footer_template(), seq![("next"@, next_action@)]),
    {
        let names: [&str; 1] = ["next"];
        let mut values: Vec<String> = Vec::new();
        values.push(next_action.to_owned());
        proof {
            reveal_strlit("next");
        }
        assert(args_view(names@, values@) =~= seq![("next"@, next_action@)]);
        interpolate(locale.footer.as_str(), names.as_slice(), values.as_slice())
    }

    /// The checklist row of step `i`: `>` for the current step, `[x]` for a
    /// completed one, `[ ]` for a pending one, then its number.
    pub open spec fn row_label(&self, i: int) -> Seq<char> {
        (if step_at(i) == self.current {
            ">"@
        } else if self.done@[i] {
            "[x]"@
        } else {
            "[ ]"@
        }) + " "@ + decimal((i + 1) as nat)
    }

    /// Right-side checklist: one row per step, in step order, under the
    /// locale's title.
    pub fn checklist_preview(&self, locale: &WizardLocale) -> (m: MenuPreview)
        ensures
            m matches MenuPreview::KeyValues { title, rows } && {
                &&& title matches Some(t) && t@ == locale.progress_title_spec()
                &&& rows@.len() == WIZARD_STEPS
                &&& forall|i: int|
                    0 <= i < WIZARD_STEPS ==> {
                        &&& (#[trigger] rows@[i]).label@ == self.row_label(i)
                        &&& rows@[i].value@ == locale.title_spec(step_at(i))
                    }
            },
    {
        let mut rows: Vec<MenuPreviewRow> = Vec::new();
        let mut i: usize = 0;
        while i < WIZARD_STEPS
            invariant
                i <= WIZARD_STEPS,
                rows@.len() == i,
                forall|k: int|
                    0 <= k < i ==> {
                        &&& (#[trigger] rows@[k]).label@ == self.row_label(k)
                        &&& rows@[k].value@ == locale.title_spec(step_at(k))
                    },
            decreases WIZARD_STEPS - i,
        {
            let step = step_of(i);
            let marker = if step == self.current {
                ">"
            } else if self.done[i] {
                "[x]"
            } else {
                "[ ]"
            };
            let mut label = String::new();
            label.append(marker);
            push_char(&mut label, ' ');
            push_decimal(&mut label, step.number());
            proof {
                reveal_strlit(" ");
                assert(seq![' '] =~= " "@);
            }
            assert(label@ =~= self.row_label(i as int));
            let value = step.short_title(locale);
            rows.push(MenuPreviewRow { label, value });
            i = i + 1;
        }
        MenuPreview::KeyValues { title: Some(locale.progress_title.clone()), rows }
    }
}

/// The step at 0-based position `i`.
fn step_of(i: usize) -> (s: WizardStep)
    requires
        i < WIZARD_STEPS,
    ensures
        s == step_at(i as int),
        number_spec(s) == i + 1,
{
    if i == 0 {
        WizardStep::Profile
    } else if i == 1 {
        WizardStep::Provider
    } else if i == 2 {
        WizardStep::Connect
    } else if i == 3 {
        WizardStep::Save
    } else if i == 4 {
        WizardStep::Workspace
    } else {
        WizardStep::Activate
    }
}

/// The current step is incomplete and every step before it is complete.
pub proof fn law_current_is_first_incomplete(p: WizardProgress)
    requires
        p.well_formed(),
    ensures
        !p.done@[number_spec(p.current) - 1],
        forall|i: int| 0 <= i < number_spec(p.current) - 1 ==> p.done@[i],
{
    lemma_first_incomplete_from(p.done@, 0);
}

proof fn lemma_first_incomplete_from(done: Seq<bool>, from: int)
    requires
        0 <= from <= 5,
        done.len() == 6,
        !done[5],
    ensures
        from <= first_incomplete_from(done, from) <= 5,
        !done[first_incomplete_from(done, from)],
        forall|i: int| from <= i < first_incomplete_from(done, from) ==> done[i],
        number_spec(step_at(first_incomplete_from(done, from))) == first_incomplete_from(done, from)
            + 1,
    decreases 5 - from,
{
    if from < 5 && done[from] {
        lemma_first_incomplete_from(done, from + 1);
    }
}

/// Completing more steps never moves the wizard back: when every step done
/// in `a` is done in `b`, `b`'s current step is not before `a`'s.
pub proof fn law_progress_is_monotone(a: WizardProgress, b: WizardProgress)
    requires
        a.well_formed(),
        b.well_formed(),
        forall|i: int| 0 <= i < 6 ==> a.done@[i] ==> b.done@[i],
    ensures
        number_spec(a.current) <= number_spec(b.current),
{
    lemma_first_incomplete_from(a.done@, 0);
    lemma_first_incomplete_from(b.done@, 0);
    let fb = first_incomplete(b.done@);
    assert(!a.done@[fb]);
}

/// The Profile step is done exactly when a profile is in effect, the one
/// onboarding created or the one the session already runs under, whether or
/// not local profile creation is offered; and then the wizard is past it.
pub proof fn law_profile_step_done_iff_profile_in_effect(
    state: OnboardingWizardState,
    current_profile: Option<Seq<char>>,
    local_create_supported: bool,
    p: WizardProgress,
)
    requires
        p.done@ == done_marks(state, current_profile, local_create_supported),
        p.well_formed(),
    ensures
        p.done@[0] <==> (state.profile_id is Some || current_profile is Some),
        (state.profile_id is Some || current_profile is Some) ==> p.current != WizardStep::Profile,
        !(state.profile_id is Some || current_profile is Some) ==> p.current == WizardStep::Profile,
{
    lemma_first_incomplete_from(p.done@, 0);
}

// ---------------------------------------------------------------------------
// Menu preview
// ---------------------------------------------------------------------------

#[derive(Debug, Clone, PartialEq, Eq)]
pub struct MenuPreviewRow {
    pub label: String,
    pub value: String,
}

/// The right-side preview of a menu.
#[derive(Debug, Clone, PartialEq, Eq)]
pub enum MenuPreview {
    KeyValues { title: Option<String>, rows: Vec<MenuPreviewRow> },
}

} // verus!
