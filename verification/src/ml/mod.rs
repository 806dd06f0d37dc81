//! Analysis models over the MIDI stream and the context they work in.

use vstd::prelude::*;
use vstd::string::*;
use crate::ml::context::{
    all_patterns, insight_patterns, Insight, ModelContext, ModelContextView, ModelError,
    MusicalContext, PatternView, is_note_shaped,
};
use crate::ml::pattern::{PatternRecognitionModel, RecognitionView};
use crate::shared_buffer::{EventView, MidiEvent};

pub mod context;
pub mod pattern;

verus! {

/// The kinds of analysis model.
#[derive(Debug, Clone, Copy, PartialEq, Eq, Structural)]
pub enum ModelType {
    /// Pattern recognition model.
    PatternRecognition,
    /// Style classification model.
    StyleClassification,
    /// Performance analysis model.
    PerformanceAnalysis,
}

/// The model type that a number stands for at the boundary to the host:
/// 0, 1 and 2 in the order of the variants.
pub open spec fn model_type_of(code: i32) -> Option<ModelType> {
    if code == 0 {
        Some(ModelType::PatternRecognition)
    } else if code == 1 {
        Some(ModelType::StyleClassification)
    } else if code == 2 {
        Some(ModelType::PerformanceAnalysis)
    } else {
        None
    }
}

impl ModelType {
    /// Reads a model type from the number that the host passes.
    pub fn from_code(code: i32) -> (model_type: Option<ModelType>)
        ensures
            model_type == model_type_of(code),
    {
        if code == 0 {
            Some(ModelType::PatternRecognition)
        } else if code == 1 {
            Some(ModelType::StyleClassification)
        } else if code == 2 {
            Some(ModelType::PerformanceAnalysis)
        } else {
            None
        }
    }
}

/// A model in use: one of the kinds of analysis that are implemented.
#[derive(Debug)]
pub enum Model {
    PatternRecognition(PatternRecognitionModel),
}

/// What a model knows.
pub enum ModelView {
    PatternRecognition(RecognitionView),
}

impl ModelView {
    /// Whether the model after `event` is `after`.
    pub open spec fn process_event(self, event: EventView, after: ModelView) -> bool {
        match (self, after) {
            (ModelView::PatternRecognition(m), ModelView::PatternRecognition(n)) => m.process_event(
                event,
                n,
            ),
        }
    }

    /// The patterns of the insights of the model.
    pub open spec fn insights(self) -> Seq<PatternView> {
        match self {
            ModelView::PatternRecognition(m) => m.insights(),
        }
    }
}

impl View for Model {
    type V = ModelView;

    open spec fn view(&self) -> ModelView {
        match self {
            Model::PatternRecognition(m) => ModelView::PatternRecognition(m@),
        }
    }
}

impl Model {
    /// Hands one event to the model.
    pub fn process_event(&mut self, event: &MidiEvent, context: &MusicalContext)
        ensures
            old(self)@.process_event(event@, final(self)@),
    {
        match self {
            Model::PatternRecognition(model) => model.process_event(event, context),
        }
    }

    /// The insights of the model.
    pub fn generate_insights(&self, context: &MusicalContext) -> (insights: Vec<Insight>)
        ensures
            all_patterns(insights@),
            insight_patterns(insights@) == self@.insights(),
    {
        match self {
            Model::PatternRecognition(model) => model.generate_insights(context),
        }
    }
}

/// The name under which the pattern recognition model is registered.
pub open spec fn pattern_recognition_name() -> Seq<char> {
    "pattern_recognition"@
}

/// A model under the name it was registered with.
#[derive(Debug)]
pub struct RegisteredModel {
    pub name: String,
    pub model: Model,
}

/// The models of a registry by name. A name that was registered again
/// stands for the model that was registered last.
pub open spec fn registry(entries: Seq<RegisteredModel>) -> Map<Seq<char>, ModelView>
    decreases entries.len(),
{
    if entries.len() == 0 {
        Map::empty()
    } else {
        registry(entries.drop_last()).insert(entries.last().name@, entries.last().model@)
    }
}

/// What the protocol knows.
pub struct ProtocolView {
    pub context: ModelContextView,
    pub models: Map<Seq<char>, ModelView>,
    pub active_model: Option<Seq<char>>,
}

/// The text of the error for a model type that cannot be loaded.
pub open spec fn not_implemented_text(model_type: ModelType) -> Seq<char> {
    match model_type {
        ModelType::PatternRecognition => Seq::empty(),
        ModelType::StyleClassification => "Style classification not implemented yet"@,
        ModelType::PerformanceAnalysis => "Performance analysis not implemented yet"@,
    }
}

/// Manages the models that are registered, the one that is active, and the
/// context they work in.
#[derive(Debug)]
pub struct ModelContextProtocol {
    context: ModelContext,
    models: Vec<RegisteredModel>,
    active_model: Option<String>,
}

/// The view of a name that may be absent.
pub open spec fn name_view(name: Option<String>) -> Option<Seq<char>> {
    match name {
        Some(n) => Some(n@),
        None => None,
    }
}

impl View for ModelContextProtocol {
    type V = ProtocolView;

    closed spec fn view(&self) -> ProtocolView {
        ProtocolView {
            context: self.context@,
            models: registry(self.models@),
            active_model: name_view(self.active_model),
        }
    }
}

/// Taking an entry out of a registry changes nothing for other names.
proof fn lemma_registry_remove(entries: Seq<RegisteredModel>, j: int, name: Seq<char>)
    requires
        0 <= j < entries.len(),
        entries[j].name@ != name,
    ensures
        registry(entries.remove(j)).contains_key(name) == registry(entries).contains_key(name),
        registry(entries).contains_key(name) ==> registry(entries.remove(j))[name] == registry(
            entries,
        )[name],
    decreases entries.len(),
{
    let rest = entries.drop_last();
    if j == entries.len() - 1 {
        assert(entries.remove(j) =~= rest);
    } else {
        lemma_registry_remove(rest, j, name);
        assert(entries.remove(j).drop_last() =~= rest.remove(j));
        assert(entries.remove(j).last() == entries.last());
    }
}

/// A name is registered exactly when an entry has it.
proof fn lemma_registry_contains(entries: Seq<RegisteredModel>, name: Seq<char>)
    ensures
        registry(entries).contains_key(name) <==> exists|i: int|
            0 <= i < entries.len() && (#[trigger] entries[i]).name@ == name,
    decreases entries.len(),
{
    if entries.len() > 0 {
        let rest = entries.drop_last();
        lemma_registry_contains(rest, name);
        if registry(entries).contains_key(name) {
            if entries.last().name@ == name {
                assert(entries[entries.len() - 1].name@ == name);
            } else {
                let i = choose|i: int| 0 <= i < rest.len() && (#[trigger] rest[i]).name@ == name;
                assert(entries[i] == rest[i]);
            }
        }
        if exists|i: int| 0 <= i < entries.len() && (#[trigger] entries[i]).name@ == name {
            let i = choose|i: int| 0 <= i < entries.len() && (#[trigger] entries[i]).name@ == name;
            if i < rest.len() {
                assert(rest[i] == entries[i]);
            }
        }
    }
}

impl ModelContextProtocol {
    /// A protocol without models.
    pub fn new() -> (protocol: Self)
        ensures
            protocol@.models == Map::<Seq<char>, ModelView>::empty(),
            protocol@.active_model is None,
            protocol@.context.model is None,
            protocol@.context.recent_events == Seq::<EventView>::empty(),
            protocol@.context.patterns == Seq::<PatternView>::empty(),
            protocol@.context.musical_context == MusicalContext::new_view(),
    {
        ModelContextProtocol { context: ModelContext::new(), models: Vec::new(), active_model: None }
    }

    fn position(&self, name: &String) -> (found: Option<usize>)
        ensures
            match found {
                Some(j) => j < self.models@.len() && self.models@[j as int].name@ == name@,
                None => forall|i: int|
                    0 <= i < self.models@.len() ==> (#[trigger] self.models@[i]).name@ != name@,
            },
    {
        let mut i: usize = 0;
        while i < self.models.len()
            invariant
                i <= self.models.len(),
                forall|j: int| 0 <= j < i ==> (#[trigger] self.models@[j]).name@ != name@,
            decreases self.models.len() - i,
        {
            if self.models[i].name == *name {
                return Some(i);
            }
            i = i + 1;
        }
        None
    }

    /// Registers a model under a name. A model that was registered under the
    /// name before is replaced.
    pub fn register_model(&mut self, name: &str, model: Model)
        ensures
            final(self)@ == (ProtocolView {
                models: old(self)@.models.insert(name@, model@),
                ..old(self)@
            }),
    {
        let name = name.to_owned();
        let ghost before = self.models@;
        let ghost key = name@;
        let ghost value = model@;
        let found = self.position(&name);
        match found {
            Some(j) => {
                self.models.remove(j);
            },
            None => {},
        }
        let ghost middle = self.models@;
        self.models.push(RegisteredModel { name, model });
        proof {
            assert(self.models@.drop_last() =~= middle);
            let now = registry(self.models@);
            let want = registry(before).insert(key, value);
            assert(now == registry(middle).insert(key, value));
            assert forall|other: Seq<char>|
                #![trigger now.dom().contains(other)]
                #![trigger want.dom().contains(other)]
                #![trigger now[other]]
                #![trigger want[other]]
                now.dom().contains(other) == want.dom().contains(other) && (now.dom().contains(
                    other,
                ) ==> now[other] == want[other]) by {
                if other != key {
                    match found {
                        Some(j) => {
                            assert(middle == before.remove(j as int));
                            lemma_registry_remove(before, j as int, other);
                        },
                        None => {
                            assert(middle == before);
                        },
                    }
                }
            }
            assert(now.dom() =~= want.dom());
            assert(now =~= want);
        }
    }

    /// Makes the model that is registered under `name` the active one.
    pub fn activate_model(&mut self, name: &str) -> (result: Result<(), ModelError>)
        ensures
            old(self)@.models.contains_key(name@) ==> result is Ok && final(self)@ == (
            ProtocolView { active_model: Some(name@), ..old(self)@ }),
            !old(self)@.models.contains_key(name@) ==> (result matches Err(
                ModelError::ModelNotFound,
            )) && final(self)@ == old(self)@,
    {
        let name = name.to_owned();
        proof {
            lemma_registry_contains(self.models@, name@);
        }
        match self.position(&name) {
            Some(_) => {
                self.active_model = Some(name);
                Ok(())
            },
            None => Err(ModelError::ModelNotFound),
        }
    }

    /// Loads a model by its type: registers a new pattern recognition model
    /// and makes it the active one. The other types are not implemented and
    /// fail to load.
    pub fn load_model(&mut self, model_type: ModelType) -> (result: Result<(), ModelError>)
        ensures
            model_type == ModelType::PatternRecognition ==> result is Ok && final(self)@.context
                == old(self)@.context && final(self)@.active_model == Some(
                pattern_recognition_name(),
            ) && final(self)@.models.dom() == old(self)@.models.dom().insert(
                pattern_recognition_name(),
            ) && (forall|name: Seq<char>|
                name != pattern_recognition_name() && old(self)@.models.contains_key(name)
                    ==> final(self)@.models[name] == old(self)@.models[name]),
            model_type != ModelType::PatternRecognition ==> final(self)@ == old(self)@ && ({
                &&& result matches Err(ModelError::LoadFailed(text))
                &&& text@ == not_implemented_text(model_type)
            }),
    {
        match model_type {
            ModelType::PatternRecognition => {
                let model = PatternRecognitionModel::new();
                self.register_model("pattern_recognition", Model::PatternRecognition(model));
                self.activate_model("pattern_recognition")
            },
            ModelType::StyleClassification => Err(
                ModelError::LoadFailed("Style classification not implemented yet".to_owned()),
            ),
            ModelType::PerformanceAnalysis => Err(
                ModelError::LoadFailed("Performance analysis not implemented yet".to_owned()),
            ),
        }
    }

    /// Takes one event into the context.
    pub fn process_event(&mut self, event: MidiEvent)
        requires
            is_note_shaped(event@),
        ensures
            old(self)@.context.add_event(event@, final(self)@.context),
            final(self)@.models == old(self)@.models,
            final(self)@.active_model == old(self)@.active_model,
    {
        self.context.add_event(event);
    }

    /// The insights of the context.
    pub fn generate_insights(&self) -> (insights: Vec<Insight>)
        ensures
            all_patterns(insights@),
            insight_patterns(insights@) == self@.context.insights(),
    {
        self.context.generate_insights()
    }
}

} // verus!
