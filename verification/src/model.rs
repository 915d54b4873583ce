//! The data that actions, their instances and profiles carry, and their
//! mathematical views.

use vstd::prelude::*;

verus! {

/// One visual state of an action.
pub struct ActionState {
    pub image: String,
    pub text: String,
    pub show: bool,
}

/// An action as a plugin declares it.
pub struct Action {
    pub name: String,
    pub uuid: String,
    pub plugin: String,
    pub icon: String,
    pub states: Vec<ActionState>,
    pub controllers: Vec<String>,
}

/// A slot on a device: a controller ("Keypad", "Encoder", "Infobar") and a
/// position in one profile of one device.
pub struct Context {
    pub device: String,
    pub profile: String,
    pub controller: String,
    pub position: u8,
}

/// An instance address: a slot and an index in it (0 for the instance in the
/// slot itself, 1.. for the children of a multi-action, toggle or stack).
pub struct ActionContext {
    pub device: String,
    pub profile: String,
    pub controller: String,
    pub position: u8,
    pub index: u16,
}

/// An action placed on a device.
pub struct ActionInstance {
    pub action: Action,
    pub context: ActionContext,
    pub states: Vec<ActionState>,
    pub current_state: u16,
    /// The instance settings as JSON text.
    pub settings: String,
    pub children: Option<Vec<ActionInstance>>,
}

/// A registered device and the controls it has.
pub struct DeviceInfo {
    pub id: String,
    pub plugin: String,
    pub name: String,
    pub rows: u8,
    pub columns: u8,
    pub encoders: u8,
    pub touchpoints: u8,
    pub infobar: u8,
    /// The device family number the front end draws by.
    pub device_type: u8,
}

/// The slots of one profile of a device.
pub struct Profile {
    pub id: String,
    pub keys: Vec<Option<ActionInstance>>,
    pub sliders: Vec<Option<ActionInstance>>,
    pub infobar: Vec<Option<ActionInstance>>,
}

pub struct ActionStateView {
    pub image: Seq<char>,
    pub text: Seq<char>,
    pub show: bool,
}

pub struct ActionView {
    pub name: Seq<char>,
    pub uuid: Seq<char>,
    pub plugin: Seq<char>,
    pub icon: Seq<char>,
    pub states: Seq<ActionStateView>,
    pub controllers: Seq<Seq<char>>,
}

pub struct ContextView {
    pub device: Seq<char>,
    pub profile: Seq<char>,
    pub controller: Seq<char>,
    pub position: u8,
}

pub struct ActionContextView {
    pub device: Seq<char>,
    pub profile: Seq<char>,
    pub controller: Seq<char>,
    pub position: u8,
    pub index: u16,
}

pub struct ActionInstanceView {
    pub action: ActionView,
    pub context: ActionContextView,
    pub states: Seq<ActionStateView>,
    pub current_state: u16,
    pub settings: Seq<char>,
    pub children: Option<Seq<ActionInstanceView>>,
}

pub struct ProfileView {
    pub id: Seq<char>,
    pub keys: Seq<Option<ActionInstanceView>>,
    pub sliders: Seq<Option<ActionInstanceView>>,
    pub infobar: Seq<Option<ActionInstanceView>>,
}

impl View for ActionState {
    type V = ActionStateView;

    open spec fn view(&self) -> ActionStateView {
        ActionStateView { image: self.image@, text: self.text@, show: self.show }
    }
}

pub open spec fn states_view(s: Seq<ActionState>) -> Seq<ActionStateView> {
    s.map_values(|st: ActionState| st@)
}

pub open spec fn strings_view(s: Seq<String>) -> Seq<Seq<char>> {
    s.map_values(|st: String| st@)
}

impl View for Action {
    type V = ActionView;

    open spec fn view(&self) -> ActionView {
        ActionView {
            name: self.name@,
            uuid: self.uuid@,
            plugin: self.plugin@,
            icon: self.icon@,
            states: states_view(self.states@),
            controllers: strings_view(self.controllers@),
        }
    }
}

impl View for Context {
    type V = ContextView;

    open spec fn view(&self) -> ContextView {
        ContextView {
            device: self.device@,
            profile: self.profile@,
            controller: self.controller@,
            position: self.position,
        }
    }
}

impl View for ActionContext {
    type V = ActionContextView;

    open spec fn view(&self) -> ActionContextView {
        ActionContextView {
            device: self.device@,
            profile: self.profile@,
            controller: self.controller@,
            position: self.position,
            index: self.index,
        }
    }
}

pub open spec fn instance_view(inst: ActionInstance) -> ActionInstanceView
    decreases inst,
{
    ActionInstanceView {
        action: inst.action@,
        context: inst.context@,
        states: states_view(inst.states@),
        current_state: inst.current_state,
        settings: inst.settings@,
        children: match inst.children {
            Some(v) => Some(instances_view(v@)),
            None => None,
        },
    }
}

pub open spec fn instances_view(s: Seq<ActionInstance>) -> Seq<ActionInstanceView>
    decreases s,
{
    if s.len() == 0 {
        Seq::empty()
    } else {
        instances_view(s.drop_last()).push(instance_view(s.last()))
    }
}

impl View for ActionInstance {
    type V = ActionInstanceView;

    open spec fn view(&self) -> ActionInstanceView {
        instance_view(*self)
    }
}

pub proof fn lemma_instances_view(s: Seq<ActionInstance>)
    ensures
        instances_view(s).len() == s.len(),
        forall|i: int| 0 <= i < s.len() ==> #[trigger] instances_view(s)[i] == s[i]@,
    decreases s.len(),
{
    if s.len() > 0 {
        lemma_instances_view(s.drop_last());
        assert forall|i: int| 0 <= i < s.len() implies #[trigger] instances_view(s)[i] == s[i]@ by {
            if i < s.len() - 1 {
                assert(s.drop_last()[i] == s[i]);
            }
        }
    }
}

pub open spec fn slots_view(s: Seq<Option<ActionInstance>>) -> Seq<Option<ActionInstanceView>> {
    s.map_values(|o: Option<ActionInstance>| match o {
        Some(i) => Some(i@),
        None => None,
    })
}

impl View for Profile {
    type V = ProfileView;

    open spec fn view(&self) -> ProfileView {
        ProfileView {
            id: self.id@,
            keys: slots_view(self.keys@),
            sliders: slots_view(self.sliders@),
            infobar: slots_view(self.infobar@),
        }
    }
}

impl ContextView {
    pub open spec fn with_index(self, index: u16) -> ActionContextView {
        ActionContextView {
            device: self.device,
            profile: self.profile,
            controller: self.controller,
            position: self.position,
            index,
        }
    }
}

impl ActionContextView {
    pub open spec fn slot(self) -> ContextView {
        ContextView {
            device: self.device,
            profile: self.profile,
            controller: self.controller,
            position: self.position,
        }
    }
}

/// A copy of a string with the same text.
pub fn copy_string(s: &String) -> (r: String)
    ensures
        r@ == s@,
{
    s.clone()
}

impl ActionState {
    pub fn duplicate(&self) -> (r: ActionState)
        ensures
            r@ == self@,
    {
        ActionState { image: copy_string(&self.image), text: copy_string(&self.text), show: self.show }
    }
}

pub fn duplicate_states(s: &Vec<ActionState>) -> (r: Vec<ActionState>)
    ensures
        states_view(r@) == states_view(s@),
{
    let mut r: Vec<ActionState> = Vec::new();
    let mut i: usize = 0;
    while i < s.len()
        invariant
            i <= s.len(),
            r@.len() == i,
            forall|j: int| 0 <= j < i ==> #[trigger] r@[j]@ == s@[j]@,
        decreases s.len() - i,
    {
        r.push(s[i].duplicate());
        i = i + 1;
    }
    assert(states_view(r@) =~= states_view(s@));
    r
}

pub fn duplicate_strings(s: &Vec<String>) -> (r: Vec<String>)
    ensures
        strings_view(r@) == strings_view(s@),
{
    let mut r: Vec<String> = Vec::new();
    let mut i: usize = 0;
    while i < s.len()
        invariant
            i <= s.len(),
            r@.len() == i,
            forall|j: int| 0 <= j < i ==> #[trigger] r@[j]@ == s@[j]@,
        decreases s.len() - i,
    {
        r.push(copy_string(&s[i]));
        i = i + 1;
    }
    assert(strings_view(r@) =~= strings_view(s@));
    r
}

impl Action {
    pub fn duplicate(&self) -> (r: Action)
        ensures
            r@ == self@,
    {
        Action {
            name: copy_string(&self.name),
            uuid: copy_string(&self.uuid),
            plugin: copy_string(&self.plugin),
            icon: copy_string(&self.icon),
            states: duplicate_states(&self.states),
            controllers: duplicate_strings(&self.controllers),
        }
    }
}

impl Context {
    pub fn duplicate(&self) -> (r: Context)
        ensures
            r@ == self@,
    {
        Context {
            device: copy_string(&self.device),
            profile: copy_string(&self.profile),
            controller: copy_string(&self.controller),
            position: self.position,
        }
    }
}

impl ActionContext {
    pub fn duplicate(&self) -> (r: ActionContext)
        ensures
            r@ == self@,
    {
        ActionContext {
            device: copy_string(&self.device),
            profile: copy_string(&self.profile),
            controller: copy_string(&self.controller),
            position: self.position,
            index: self.index,
        }
    }

    /// The address of instance `index` in slot `context`.
    pub fn from_context(context: &Context, index: u16) -> (r: ActionContext)
        ensures
            r@ == context@.with_index(index),
    {
        ActionContext {
            device: copy_string(&context.device),
            profile: copy_string(&context.profile),
            controller: copy_string(&context.controller),
            position: context.position,
            index,
        }
    }

    /// The slot this instance lives in.
    pub fn slot(&self) -> (r: Context)
        ensures
            r@ == self@.slot(),
    {
        Context {
            device: copy_string(&self.device),
            profile: copy_string(&self.profile),
            controller: copy_string(&self.controller),
            position: self.position,
        }
    }

    /// Whether two addresses name the same instance.
    pub fn same_as(&self, other: &ActionContext) -> (r: bool)
        ensures
            r == (self@ == other@),
    {
        self.position == other.position && self.index == other.index && self.device == other.device
            && self.profile == other.profile && self.controller == other.controller
    }
}

impl ActionInstance {
    pub fn duplicate(&self) -> (r: ActionInstance)
        ensures
            r@ == self@,
        decreases self,
    {
        let children = match &self.children {
            Some(v) => Some(duplicate_instances(v)),
            None => None,
        };
        ActionInstance {
            action: self.action.duplicate(),
            context: self.context.duplicate(),
            states: duplicate_states(&self.states),
            current_state: self.current_state,
            settings: copy_string(&self.settings),
            children,
        }
    }
}

pub fn duplicate_instances(s: &Vec<ActionInstance>) -> (r: Vec<ActionInstance>)
    ensures
        instances_view(r@) == instances_view(s@),
    decreases s,
{
    let mut r: Vec<ActionInstance> = Vec::new();
    let mut i: usize = 0;
    while i < s.len()
        invariant
            i <= s.len(),
            instances_view(r@) == instances_view(s@.take(i as int)),
        decreases s.len() - i,
    {
        proof {
            assert(decreases_to!(s => s@[i as int]));
        }
        let c = s[i].duplicate();
        let ghost before = r@;
        r.push(c);
        proof {
            assert(r@.drop_last() =~= before);
            assert(s@.take(i as int + 1).drop_last() =~= s@.take(i as int));
        }
        i = i + 1;
    }
    assert(s@.take(s.len() as int) =~= s@);
    r
}

} // verus!
