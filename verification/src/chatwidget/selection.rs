//! The selections that the widget shows: the timeline of sessions, the
//! models, and the approval modes.

use crate::chatwidget::{Progress, emit, history_added};
use crate::history_cell::{
    Effect, EffectView, HistoryCellView, ResumeRequestView, SelectionAction, SelectionActionView,
    SelectionItem, SelectionItemView,
};
use crate::protocol::{Op, OpView};
use crate::timeline::TimelineItemView;
use vstd::prelude::*;

verus! {

/// A model and a reasoning effort to choose together.
#[derive(Debug, PartialEq, Eq)]
pub struct ModelPreset {
    /// What the list shows for the preset.
    pub label: String,
    /// What the list says of the preset.
    pub description: String,
    /// The model.
    pub model: String,
    /// The reasoning effort.
    pub effort: String,
}

/// The mathematical value of a model preset.
#[verifier::ext_equal]
pub ghost struct ModelPresetView {
    pub label: Seq<char>,
    pub description: Seq<char>,
    pub model: Seq<char>,
    pub effort: Seq<char>,
}

impl View for ModelPreset {
    type V = ModelPresetView;

    open spec fn view(&self) -> ModelPresetView {
        ModelPresetView {
            label: self.label@,
            description: self.description@,
            model: self.model@,
            effort: self.effort@,
        }
    }
}

/// An approval policy and a sandbox policy to choose together.
#[derive(Debug, PartialEq, Eq)]
pub struct ApprovalPreset {
    /// What the list shows for the preset.
    pub label: String,
    /// What the list says of the preset.
    pub description: String,
    /// The approval policy.
    pub approval: String,
    /// The sandbox policy.
    pub sandbox: String,
}

/// The mathematical value of an approval preset.
#[verifier::ext_equal]
pub ghost struct ApprovalPresetView {
    pub label: Seq<char>,
    pub description: Seq<char>,
    pub approval: Seq<char>,
    pub sandbox: Seq<char>,
}

impl View for ApprovalPreset {
    type V = ApprovalPresetView;

    open spec fn view(&self) -> ApprovalPresetView {
        ApprovalPresetView {
            label: self.label@,
            description: self.description@,
            approval: self.approval@,
            sandbox: self.sandbox@,
        }
    }
}

/// The entry of a selection for an entry of the timeline: choosing it asks
/// to resume its rollout from its step, with no prompt yet.
pub open spec fn timeline_entry(item: TimelineItemView) -> SelectionItemView {
    SelectionItemView {
        name: item.name,
        description: item.description,
        is_current: false,
        actions: seq![
            SelectionActionView::Resume(
                ResumeRequestView {
                    target: item.target,
                    at: None,
                    step: Some(item.step as usize),
                    prompt: Seq::empty(),
                },
            ),
        ],
    }
}

/// The timeline is opened: a selection of its entries or, without any, a
/// note in the history and a redraw.
pub open spec fn resume_timeline_opened(s: Progress, items: Seq<TimelineItemView>) -> Progress {
    if items.len() == 0 {
        emit(
            history_added(
                s,
                HistoryCellView::Plain(
                    seq!["No sessions found under ~/.codex/sessions"@, Seq::<char>::empty()],
                ),
            ),
            EffectView::Redraw,
        )
    } else {
        emit(
            s,
            EffectView::ShowSelection {
                title: "Resume from a previous turn"@,
                subtitle: Some(
                    "Sorted by time (newest first). Use \u{2191}/\u{2193}; PgUp/PgDn/Home/End for fast navigation."@,
                ),
                footer: Some("Press Enter to resume or Esc to cancel"@),
                items: items.map_values(|i: TimelineItemView| timeline_entry(i)),
            },
        )
    }
}

/// The entry of a selection for a model preset: choosing it changes the
/// model and the reasoning effort of the turns to come.
pub open spec fn model_entry(
    preset: ModelPresetView,
    current_model: Seq<char>,
    current_effort: Seq<char>,
) -> SelectionItemView {
    SelectionItemView {
        name: preset.label,
        description: Some(preset.description),
        is_current: preset.model == current_model && preset.effort == current_effort,
        actions: seq![
            SelectionActionView::Submit(
                OpView::OverrideTurnContext {
                    cwd: None,
                    approval_policy: None,
                    sandbox_policy: None,
                    model: Some(preset.model),
                    effort: Some(preset.effort),
                    summary: None,
                },
            ),
            SelectionActionView::UpdateModel(preset.model),
            SelectionActionView::UpdateReasoningEffort(preset.effort),
        ],
    }
}

/// The selection of a model and a reasoning effort.
pub open spec fn model_popup(
    presets: Seq<ModelPresetView>,
    current_model: Seq<char>,
    current_effort: Seq<char>,
) -> EffectView {
    EffectView::ShowSelection {
        title: "Select model and reasoning level"@,
        subtitle: Some("Switch between OpenAI models for this and future Codex CLI session"@),
        footer: Some("Press Enter to confirm or Esc to go back"@),
        items: presets.map_values(|p: ModelPresetView| model_entry(p, current_model, current_effort)),
    }
}

/// The entry of a selection for an approval preset: choosing it changes the
/// approval policy and the sandbox policy of the turns to come.
pub open spec fn approval_entry(
    preset: ApprovalPresetView,
    current_approval: Seq<char>,
    current_sandbox: Seq<char>,
) -> SelectionItemView {
    SelectionItemView {
        name: preset.label,
        description: Some(preset.description),
        is_current: preset.approval == current_approval && preset.sandbox == current_sandbox,
        actions: seq![
            SelectionActionView::Submit(
                OpView::OverrideTurnContext {
                    cwd: None,
                    approval_policy: Some(preset.approval),
                    sandbox_policy: Some(preset.sandbox),
                    model: None,
                    effort: None,
                    summary: None,
                },
            ),
            SelectionActionView::UpdateAskForApprovalPolicy(preset.approval),
            SelectionActionView::UpdateSandboxPolicy(preset.sandbox),
        ],
    }
}

/// The selection of an approval mode.
pub open spec fn approvals_popup(
    presets: Seq<ApprovalPresetView>,
    current_approval: Seq<char>,
    current_sandbox: Seq<char>,
) -> EffectView {
    EffectView::ShowSelection {
        title: "Select Approval Mode"@,
        subtitle: None,
        footer: Some("Press Enter to confirm or Esc to go back"@),
        items: presets.map_values(
            |p: ApprovalPresetView| approval_entry(p, current_approval, current_sandbox),
        ),
    }
}

/// The selection of a model and a reasoning effort among the presets.
pub fn open_model_popup(presets: &Vec<ModelPreset>, current_model: &str, current_effort: &str) -> (r:
    Effect)
    ensures
        r@ == model_popup(
            presets@.map_values(|p: ModelPreset| p@),
            current_model@,
            current_effort@,
        ),
{
    let mut items: Vec<SelectionItem> = Vec::new();
    let ghost views = presets@.map_values(|p: ModelPreset| p@);
    let mut i: usize = 0;
    while i < presets.len()
        invariant
            i <= presets.len(),
            views == presets@.map_values(|p: ModelPreset| p@),
            items@.len() == i,
            forall|k: int|
                0 <= k < i ==> (#[trigger] items@[k])@ == model_entry(
                    views[k],
                    current_model@,
                    current_effort@,
                ),
        decreases presets.len() - i,
    {
        let preset = &presets[i];
        let is_current = crate::text::same_text(preset.model.as_str(), current_model)
            && crate::text::same_text(preset.effort.as_str(), current_effort);
        let mut actions: Vec<SelectionAction> = Vec::new();
        actions.push(
            SelectionAction::Submit(
                Op::OverrideTurnContext {
                    cwd: None,
                    approval_policy: None,
                    sandbox_policy: None,
                    model: Some(crate::text::text_copy(preset.model.as_str())),
                    effort: Some(crate::text::text_copy(preset.effort.as_str())),
                    summary: None,
                },
            ),
        );
        actions.push(
            SelectionAction::UpdateModel(crate::text::text_copy(preset.model.as_str())),
        );
        actions.push(
            SelectionAction::UpdateReasoningEffort(
                crate::text::text_copy(preset.effort.as_str()),
            ),
        );
        let item = SelectionItem {
            name: crate::text::text_copy(preset.label.as_str()),
            description: Some(crate::text::text_copy(preset.description.as_str())),
            is_current,
            actions,
        };
        assert(item@.actions =~= model_entry(
            views[i as int],
            current_model@,
            current_effort@,
        ).actions);
        items.push(item);
        i += 1;
    }
    let r = Effect::ShowSelection {
        title: crate::text::text_copy("Select model and reasoning level"),
        subtitle: Some(
            crate::text::text_copy(
                "Switch between OpenAI models for this and future Codex CLI session",
            ),
        ),
        footer: Some(crate::text::text_copy("Press Enter to confirm or Esc to go back")),
        items,
    };
    assert(items@.map_values(|x: SelectionItem| x@) =~= views.map_values(
        |p: ModelPresetView| model_entry(p, current_model@, current_effort@),
    ));
    r
}

/// The selection of an approval mode among the presets.
pub fn open_approvals_popup(
    presets: &Vec<ApprovalPreset>,
    current_approval: &str,
    current_sandbox: &str,
) -> (r: Effect)
    ensures
        r@ == approvals_popup(
            presets@.map_values(|p: ApprovalPreset| p@),
            current_approval@,
            current_sandbox@,
        ),
{
    let mut items: Vec<SelectionItem> = Vec::new();
    let ghost views = presets@.map_values(|p: ApprovalPreset| p@);
    let mut i: usize = 0;
    while i < presets.len()
        invariant
            i <= presets.len(),
            views == presets@.map_values(|p: ApprovalPreset| p@),
            items@.len() == i,
            forall|k: int|
                0 <= k < i ==> (#[trigger] items@[k])@ == approval_entry(
                    views[k],
                    current_approval@,
                    current_sandbox@,
                ),
        decreases presets.len() - i,
    {
        let preset = &presets[i];
        let is_current = crate::text::same_text(preset.approval.as_str(), current_approval)
            && crate::text::same_text(preset.sandbox.as_str(), current_sandbox);
        let mut actions: Vec<SelectionAction> = Vec::new();
        actions.push(
            SelectionAction::Submit(
                Op::OverrideTurnContext {
                    cwd: None,
                    approval_policy: Some(crate::text::text_copy(preset.approval.as_str())),
                    sandbox_policy: Some(crate::text::text_copy(preset.sandbox.as_str())),
                    model: None,
                    effort: None,
                    summary: None,
                },
            ),
        );
        actions.push(
            SelectionAction::UpdateAskForApprovalPolicy(
                crate::text::text_copy(preset.approval.as_str()),
            ),
        );
        actions.push(
            SelectionAction::UpdateSandboxPolicy(
                crate::text::text_copy(preset.sandbox.as_str()),
            ),
        );
        let item = SelectionItem {
            name: crate::text::text_copy(preset.label.as_str()),
            description: Some(crate::text::text_copy(preset.description.as_str())),
            is_current,
            actions,
        };
        assert(item@.actions =~= approval_entry(
            views[i as int],
            current_approval@,
            current_sandbox@,
        ).actions);
        items.push(item);
        i += 1;
    }
    let r = Effect::ShowSelection {
        title: crate::text::text_copy("Select Approval Mode"),
        subtitle: None,
        footer: Some(crate::text::text_copy("Press Enter to confirm or Esc to go back")),
        items,
    };
    assert(items@.map_values(|x: SelectionItem| x@) =~= views.map_values(
        |p: ApprovalPresetView| approval_entry(p, current_approval@, current_sandbox@),
    ));
    r
}

} // verus!
