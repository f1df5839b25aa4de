//! Rendering of chat messages through a model's own template.
//!
//! Templates disagree on the names of the reasoning efforts: one knows `high`,
//! another calls the same tier `xhigh`, and neither can be asked. So a prompt is
//! rendered, and when the template objects to the effort, rendered once more
//! with the other name.

use crate::json;
use crate::json::{object, string, write_value, Json};
use crate::text;
use crate::text::{
    chars_of, has_text, same_text, skip_spaces_back, string_of, text_at, text_of, to_ascii_lower,
};
use vstd::prelude::*;
use vstd::string::*;

verus! {

/// Settings of a rendering.
#[derive(Debug, Clone)]
pub struct RenderFlags {
    pub enable_thinking: bool,
    pub disable_tool_steering: bool,
    /// The effort that was asked for.
    pub reasoning_effort: Option<String>,
    /// Keep the thinking of earlier turns; left undefined when not set, so that
    /// the template's own default holds.
    pub preserve_thinking: Option<bool>,
    /// Let a last message of the assistant be continued.
    pub allow_continue_final: bool,
}

impl Default for RenderFlags {
    fn default() -> (f: Self)
        ensures
            f == (RenderFlags {
                enable_thinking: false,
                disable_tool_steering: false,
                reasoning_effort: None,
                preserve_thinking: None,
                allow_continue_final: false,
            }),
    {
        RenderFlags {
            enable_thinking: false,
            disable_tool_steering: false,
            reasoning_effort: None,
            preserve_thinking: None,
            allow_continue_final: false,
        }
    }
}

/// Messages that are ready for the template, and whether the model shall think
/// now that control tokens in them have been obeyed.
pub struct Prepared {
    pub messages: Json,
    pub enable_thinking: bool,
}

// ── what the template is given ──

/// The effort to render with: the one asked for, else the neutral tier of a
/// thinking model, else none.
pub open spec fn effort_for(asked: Option<Seq<char>>, enable_thinking: bool) -> Seq<char> {
    match asked {
        Some(e) => e,
        None => if enable_thinking {
            "medium"@
        } else {
            "none"@
        },
    }
}

/// The last message is the assistant's.
pub open spec fn ends_with_assistant(messages: Seq<json::JsonView>) -> bool {
    messages.len() > 0 && messages.last().text_field("role"@) == Some("assistant"@)
}

/// The entries that `flag` adds when it is set.
pub open spec fn optional_entry(
    key: Seq<char>,
    v: Option<json::JsonView>,
) -> Seq<(Seq<char>, json::JsonView)> {
    match v {
        Some(x) => seq![(key, x)],
        None => Seq::empty(),
    }
}

/// What the template is given. A variable without a value is left out.
pub open spec fn context_of(
    messages: json::JsonView,
    tools: Option<json::JsonView>,
    flags: RenderFlags,
    enable_thinking: bool,
    effort: Seq<char>,
    continue_final: bool,
) -> json::JsonView {
    json::JsonView::Object(
        seq![("messages"@, messages)] + optional_entry("tools"@, tools) + seq![
            ("add_generation_prompt"@, json::JsonView::Bool(!continue_final)),
            ("enable_thinking"@, json::JsonView::Bool(enable_thinking)),
            ("reasoning_effort"@, json::JsonView::Str(effort)),
        ] + optional_entry(
            "preserve_thinking"@,
            match flags.preserve_thinking {
                Some(b) => Some(json::JsonView::Bool(b)),
                None => None,
            },
        ) + seq![
            ("disable_tool_steering"@, json::JsonView::Bool(flags.disable_tool_steering)),
            ("add_vision_id"@, json::JsonView::Bool(false)),
        ],
    )
}

/// The effort to render with.
pub fn resolve_effort(asked: &Option<String>, enable_thinking: bool) -> (e: String)
    ensures
        e@ == effort_for(text::opt_text(*asked), enable_thinking),
{
    match asked {
        Some(e) => e.as_str().to_owned(),
        None => if enable_thinking {
            "medium".to_owned()
        } else {
            "none".to_owned()
        },
    }
}

/// The last message is to be continued.
pub fn continues_final(flags: &RenderFlags, messages: &Vec<Json>) -> (r: bool)
    ensures
        r == (flags.allow_continue_final && ends_with_assistant(json::views(messages@))),
{
    if !flags.allow_continue_final || messages.len() == 0 {
        return false;
    }
    let i: usize = messages.len() - 1;
    assert(json::views(messages@).last() == messages@[i as int]@);
    match messages[i].get_str("role") {
        Some(r) => same_text(r, "assistant"),
        None => false,
    }
}

fn push_entry(entries: &mut Vec<(String, Json)>, key: &str, v: Json)
    ensures
        json::entry_views(final(entries)@) == json::entry_views(old(entries)@).push((key@, v@)),
{
    let ghost before = entries@;
    entries.push((key.to_owned(), v));
    assert(json::entry_views(entries@) =~= json::entry_views(before).push((key@, v@)));
}

/// What the template is given for a prompt.
pub fn render_context(
    prepared: &Prepared,
    tools: &Option<Json>,
    flags: &RenderFlags,
    effort: &str,
    continue_final: bool,
) -> (context: Json)
    ensures
        context@ == context_of(
            prepared.messages@,
            json::opt_view(*tools),
            *flags,
            prepared.enable_thinking,
            effort@,
            continue_final,
        ),
{
    let mut entries: Vec<(String, Json)> = Vec::new();
    assert(json::entry_views(entries@) =~= Seq::empty());
    push_entry(&mut entries, "messages", prepared.messages.clone());
    if let Some(t) = tools {
        push_entry(&mut entries, "tools", t.clone());
    }
    push_entry(&mut entries, "add_generation_prompt", Json::Bool(!continue_final));
    push_entry(&mut entries, "enable_thinking", Json::Bool(prepared.enable_thinking));
    push_entry(&mut entries, "reasoning_effort", string(effort));
    if let Some(b) = flags.preserve_thinking {
        push_entry(&mut entries, "preserve_thinking", Json::Bool(b));
    }
    push_entry(&mut entries, "disable_tool_steering", Json::Bool(flags.disable_tool_steering));
    push_entry(&mut entries, "add_vision_id", Json::Bool(false));
    let context: Json = object(entries);
    assert(context@->Object_0 =~= context_of(
        prepared.messages@,
        json::opt_view(*tools),
        *flags,
        prepared.enable_thinking,
        effort@,
        continue_final,
    )->Object_0);
    context
}

// ── what the template answers ──

/// What a template complained of: the error and its causes.
pub struct Complaint {
    pub text: String,
    pub causes: Vec<String>,
}

/// All that a complaint says, in lower case.
pub open spec fn complaint_text(first: Seq<char>, causes: Seq<Seq<char>>, n: int) -> Seq<char>
    decreases n,
{
    if n <= 0 {
        text::ascii_lowercase(first)
    } else {
        complaint_text(first, causes, n - 1) + seq![' '] + text::ascii_lowercase(causes[n - 1])
    }
}

/// The template objects to the effort.
pub open spec fn objects_to_effort(c: Complaint) -> bool {
    let t = complaint_text(c.text@, text::texts(c.causes@), c.causes@.len() as int);
    text::contains_text(t, "reasoning effort"@) || text::contains_text(t, "reasoning_effort"@)
}

/// The other name of a tier; only the highest has two.
pub open spec fn other_name(asked: Seq<char>) -> Option<Seq<char>> {
    if asked == "high"@ {
        Some("xhigh"@)
    } else if asked == "xhigh"@ {
        Some("high"@)
    } else {
        None
    }
}

/// What comes of a first rendering.
pub enum Attempt {
    /// The text.
    Rendered(String),
    /// Render again with this effort.
    Retry(String),
    /// Why there is no text.
    Failed(String),
}

pub enum AttemptView {
    Rendered(Seq<char>),
    Retry(Seq<char>),
    Failed(Seq<char>),
}

impl View for Attempt {
    type V = AttemptView;

    open spec fn view(&self) -> AttemptView {
        match self {
            Attempt::Rendered(t) => AttemptView::Rendered(t@),
            Attempt::Retry(e) => AttemptView::Retry(e@),
            Attempt::Failed(m) => AttemptView::Failed(m@),
        }
    }
}

/// The message of a failed rendering.
pub open spec fn render_failure(text: Seq<char>) -> Seq<char> {
    "Failed to render Jinja chat template: "@ + text
}

/// What comes of a first rendering with the effort `asked`.
pub open spec fn judged(asked: Seq<char>, outcome: Result<String, Complaint>) -> AttemptView {
    match outcome {
        Ok(t) => AttemptView::Rendered(t@),
        Err(c) => match other_name(asked) {
            Some(e) => if objects_to_effort(c) {
                AttemptView::Retry(e)
            } else {
                AttemptView::Failed(render_failure(c.text@))
            },
            None => AttemptView::Failed(render_failure(c.text@)),
        },
    }
}

/// The template objects to the effort.
pub fn is_effort_rejection(c: &Complaint) -> (r: bool)
    ensures
        r == objects_to_effort(*c),
{
    let mut msg: Vec<char> = to_ascii_lower(&chars_of(c.text.as_str()));
    let ghost causes = text::texts(c.causes@);
    let mut i: usize = 0;
    while i < c.causes.len()
        invariant
            i <= c.causes@.len(),
            causes == text::texts(c.causes@),
            msg@ == complaint_text(c.text@, causes, i as int),
        decreases c.causes@.len() - i,
    {
        let mut lower: Vec<char> = to_ascii_lower(&chars_of(c.causes[i].as_str()));
        assert(causes[i as int] == c.causes@[i as int]@);
        let ghost before = msg@;
        msg.push(' ');
        msg.append(&mut lower);
        i = i + 1;
        assert(msg@ =~= before + seq![' '] + text::ascii_lowercase(causes[i - 1]));
    }
    proof {
        reveal_strlit("reasoning effort");
        reveal_strlit("reasoning_effort");
    }
    has_text(&msg, "reasoning effort") || has_text(&msg, "reasoning_effort")
}

/// The other name of a tier.
pub fn effort_synonym(asked: &str) -> (r: Option<&'static str>)
    ensures
        match r {
            Some(e) => other_name(asked@) == Some(e@),
            None => other_name(asked@) is None,
        },
{
    if same_text(asked, "high") {
        Some("xhigh")
    } else if same_text(asked, "xhigh") {
        Some("high")
    } else {
        None
    }
}

fn write_failure(text: &str) -> (m: String)
    ensures
        m@ == render_failure(text@),
{
    let mut m: String = "Failed to render Jinja chat template: ".to_owned();
    m.append(text);
    m
}

/// What comes of a first rendering: its text, a second try with the other name
/// of the effort when the template objects to this one, or the failure.
pub fn judge_attempt(asked: &str, outcome: Result<String, Complaint>) -> (a: Attempt)
    ensures
        a@ == judged(asked@, outcome),
{
    match outcome {
        Ok(t) => Attempt::Rendered(t),
        Err(c) => {
            if is_effort_rejection(&c) {
                if let Some(e) = effort_synonym(asked) {
                    return Attempt::Retry(e.to_owned());
                }
            }
            Attempt::Failed(write_failure(c.text.as_str()))
        },
    }
}

/// The text without white space at its end.
pub open spec fn trim_end(s: Seq<char>) -> Seq<char> {
    s.subrange(0, text::skip_space_back(s, 0, s.len() as int))
}

/// The text without `suffix` at its end.
pub open spec fn without_suffix(s: Seq<char>, suffix: Seq<char>) -> Seq<char> {
    if text::matches_at(s, suffix, s.len() - suffix.len()) {
        s.subrange(0, s.len() - suffix.len())
    } else {
        s
    }
}

/// The prompt of a rendered text: as it is, or without the end of the turn when
/// the last message is to be continued.
pub open spec fn finished(rendered: Seq<char>, continue_final: bool) -> Seq<char> {
    if continue_final {
        without_suffix(trim_end(rendered), "<|im_end|>"@)
    } else {
        rendered
    }
}

/// The prompt of a rendered text.
pub fn finish_prompt(rendered: String, continue_final: bool) -> (prompt: String)
    ensures
        prompt@ == finished(rendered@, continue_final),
{
    if !continue_final {
        return rendered;
    }
    let s: Vec<char> = chars_of(rendered.as_str());
    let end: usize = skip_spaces_back(&s, 0, s.len());
    let t: Vec<char> = text::slice_of(&s, 0, end);
    let mark: &str = "<|im_end|>";
    let n: usize = chars_of(mark).len();
    if t.len() >= n && text_at(&t, mark, t.len() - n) {
        string_of(&t, 0, t.len() - n)
    } else {
        text_of(&t)
    }
}

// ── the template engine ──

/// The templates of a model, with their filters and functions.
#[verifier::external_type_specification]
#[verifier::external_body]
pub struct ExEnvironment<'source>(minijinja::Environment<'source>);

/// A template of an environment.
#[verifier::external_type_specification]
#[verifier::external_body]
pub struct ExTemplate<'env: 'source, 'source>(minijinja::Template<'env, 'source>);

/// An error of the template engine.
#[verifier::external_type_specification]
#[verifier::external_body]
pub struct ExJinjaError(minijinja::Error);

/// What a `minijinja::Error` prints.
pub uninterp spec fn error_text(e: minijinja::Error) -> Seq<char>;

/// What the causes of a `minijinja::Error` print, the nearest first.
pub uninterp spec fn error_causes(e: minijinja::Error) -> Seq<Seq<char>>;

/// A look-up of a template may come to this.
pub uninterp spec fn may_find(
    env: minijinja::Environment,
    name: Seq<char>,
    template: Option<minijinja::Template>,
) -> bool;

/// A rendering of a template with the context of this JSON text may come to this.
pub uninterp spec fn may_render(
    template: minijinja::Template,
    context: Seq<char>,
    outcome: Result<Seq<char>, minijinja::Error>,
) -> bool;

/// `minijinja::Environment::get_template`: looks a template up by its name;
/// `None` when that fails. The result is one that a look-up of this name in this
/// environment may come to. Which one is not stated: an environment may load
/// templates from outside when they are asked for.
#[verifier::external_body]
fn find_template<'e>(env: &'e minijinja::Environment<'static>, name: &str) -> (r: Option<
    minijinja::Template<'e, 'e>,
>)
    ensures
        may_find(*env, name@, r),
{
    env.get_template(name).ok()
}

/// `minijinja::Template::render`: renders a template with a context. The result
/// is one that a rendering of this template with this context may come to. Which
/// one is not stated: the functions of an environment may read the clock.
#[verifier::external_body]
fn render_template(template: &minijinja::Template, context: &serde_json::Value) -> (r: Result<
    String,
    minijinja::Error,
>)
    ensures
        may_render(
            *template,
            json::held_text(*context),
            match r {
                Ok(t) => Ok(t@),
                Err(e) => Err(e),
            },
        ),
{
    template.render(context)
}

/// `minijinja::Error` through `Display`: what it prints.
#[verifier::external_body]
fn print_error(e: &minijinja::Error) -> (t: String)
    ensures
        t@ == error_text(*e),
{
    e.to_string()
}

/// `std::error::Error::source` of a `minijinja::Error`, followed to its end:
/// what the causes print. A cause may be of any type, so the walk over them
/// stands here.
#[verifier::external_body]
fn print_causes(e: &minijinja::Error) -> (t: Vec<String>)
    ensures
        text::texts(t@) == error_causes(*e),
{
    std::iter::successors(std::error::Error::source(e), |s| s.source())
        .map(|s| s.to_string())
        .collect()
}

/// The template may answer a context so.
pub open spec fn may_answer(
    template: minijinja::Template,
    context: json::JsonView,
    answer: Result<String, Complaint>,
) -> bool {
    let given = json::json_text(context);
    match answer {
        Ok(t) => may_render(template, given, Ok(t@)),
        Err(c) => exists|e: minijinja::Error| #[trigger]
            may_render(template, given, Err(e)) && c.text@ == error_text(e) && text::texts(
                c.causes@,
            ) == error_causes(e),
    }
}

fn render_once(template: &minijinja::Template, context: &Json) -> (r: Result<String, Complaint>)
    ensures
        may_answer(*template, context@, r),
{
    let value: serde_json::Value = write_value(context);
    match render_template(template, &value) {
        Ok(t) => Ok(t),
        Err(e) => Err(Complaint { text: print_error(&e), causes: print_causes(&e) }),
    }
}

/// The prompt, or why there is none, given what a first rendering with the
/// effort `asked` came to and, where there was one, a second.
pub open spec fn concluded(
    asked: Seq<char>,
    first: Result<String, Complaint>,
    second: Result<String, Complaint>,
    continue_final: bool,
) -> Result<Seq<char>, Seq<char>> {
    match judged(asked, first) {
        AttemptView::Rendered(t) => Ok(finished(t, continue_final)),
        AttemptView::Failed(m) => Err(m),
        AttemptView::Retry(_) => match second {
            Ok(t) => Ok(finished(t@, continue_final)),
            Err(c) => Err(render_failure(c.text@)),
        },
    }
}

/// What goes into a prompt besides the template and the effort.
pub struct PromptView {
    pub messages: json::JsonView,
    pub tools: Option<json::JsonView>,
    pub flags: RenderFlags,
    pub enable_thinking: bool,
    pub continue_final: bool,
}

impl PromptView {
    /// What the template is given with this effort.
    pub open spec fn context(self, effort: Seq<char>) -> json::JsonView {
        context_of(
            self.messages,
            self.tools,
            self.flags,
            self.enable_thinking,
            effort,
            self.continue_final,
        )
    }

    /// The effort of the first rendering.
    pub open spec fn effort(self) -> Seq<char> {
        effort_for(text::opt_text(self.flags.reasoning_effort), self.enable_thinking)
    }
}

/// The template may answer the first rendering with `first`, and the second,
/// where there is one, with `second`.
pub open spec fn may_answer_both(
    template: minijinja::Template,
    p: PromptView,
    first: Result<String, Complaint>,
    second: Result<String, Complaint>,
) -> bool {
    &&& may_answer(template, p.context(p.effort()), first)
    &&& judged(p.effort(), first) matches AttemptView::Retry(other) ==> may_answer(
        template,
        p.context(other),
        second,
    )
}

/// The result follows from answers that the template may give to the contexts
/// of this prompt, or from there being no template.
pub open spec fn follows(
    r: Result<Seq<char>, Seq<char>>,
    env: minijinja::Environment,
    p: PromptView,
) -> bool {
    ||| may_find(env, "chat"@, None) && r == Err::<Seq<char>, Seq<char>>(
        "Failed to get compiled template"@,
    )
    ||| exists|
        template: minijinja::Template,
        first: Result<String, Complaint>,
        second: Result<String, Complaint>,
    |
        #![trigger may_answer_both(template, p, first, second)]
        may_find(env, "chat"@, Some(template)) && may_answer_both(template, p, first, second) && r
            == concluded(p.effort(), first, second, p.continue_final)
}

/// What a result says.
pub open spec fn result_view(r: Result<String, String>) -> Result<Seq<char>, Seq<char>> {
    match r {
        Ok(t) => Ok(t@),
        Err(m) => Err(m@),
    }
}

/// Renders the prompt of a chat. `messages` are those of the request,
/// `prepared` those that the template gets. Whatever the template makes of
/// them, the result is what the rules make of its answers.
pub fn render_chat(
    env: &minijinja::Environment<'static>,
    messages: &Vec<Json>,
    prepared: &Prepared,
    tools: &Option<Json>,
    flags: &RenderFlags,
) -> (r: Result<String, String>)
    ensures
        follows(
            result_view(r),
            *env,
            PromptView {
                messages: prepared.messages@,
                tools: json::opt_view(*tools),
                flags: *flags,
                enable_thinking: prepared.enable_thinking,
                continue_final: flags.allow_continue_final && ends_with_assistant(
                    json::views(messages@),
                ),
            },
        ),
{
    let template: minijinja::Template = match find_template(env, "chat") {
        Some(template) => template,
        None => {
            return Err("Failed to get compiled template".to_owned());
        },
    };
    let continue_final: bool = continues_final(flags, messages);
    let effort: String = resolve_effort(&flags.reasoning_effort, prepared.enable_thinking);
    let ghost p = PromptView {
        messages: prepared.messages@,
        tools: json::opt_view(*tools),
        flags: *flags,
        enable_thinking: prepared.enable_thinking,
        continue_final,
    };
    let context: Json = render_context(prepared, tools, flags, effort.as_str(), continue_final);
    let rendered: Result<String, Complaint> = render_once(&template, &context);
    let ghost first = rendered;
    let attempt: Attempt = judge_attempt(effort.as_str(), rendered);
    let other: String = match attempt {
        Attempt::Rendered(t) => {
            assert(may_answer_both(template, p, first, first));
            return Ok(finish_prompt(t, continue_final));
        },
        Attempt::Failed(m) => {
            assert(may_answer_both(template, p, first, first));
            return Err(m);
        },
        Attempt::Retry(other) => other,
    };
    let context: Json = render_context(prepared, tools, flags, other.as_str(), continue_final);
    let again: Result<String, Complaint> = render_once(&template, &context);
    assert(may_answer_both(template, p, first, again));
    match again {
        Ok(t) => Ok(finish_prompt(t, continue_final)),
        Err(c) => Err(write_failure(c.text.as_str())),
    }
}

// ── laws ──

/// The retry ends: the other name of a tier is a name of the same tier, and
/// going to it twice comes back.
pub proof fn other_name_comes_back(asked: Seq<char>)
    ensures
        other_name(asked) matches Some(e) ==> other_name(e) == Some(asked) && e != asked,
{
    reveal_strlit("high");
    reveal_strlit("xhigh");
    assert("high"@.len() != "xhigh"@.len());
}

/// A tier with one name is never rendered as another: what the template says of
/// it is what the client is told.
pub proof fn unsupported_effort_still_fails(asked: Seq<char>, c: Complaint)
    requires
        asked != "high"@,
        asked != "xhigh"@,
    ensures
        judged(asked, Err(c)) == AttemptView::Failed(render_failure(c.text@)),
{
}

/// The prompts differ in nothing but the effort that was asked for.
pub open spec fn same_but_effort(p: PromptView, q: PromptView) -> bool {
    &&& q.messages == p.messages
    &&& q.tools == p.tools
    &&& q.enable_thinking == p.enable_thinking
    &&& q.continue_final == p.continue_final
    &&& q.flags == (RenderFlags { reasoning_effort: q.flags.reasoning_effort, ..p.flags })
}

/// Every answer of a template under "chat" to the prompt with this effort is an
/// objection to the effort.
pub open spec fn always_objects(
    env: minijinja::Environment,
    p: PromptView,
    effort: Seq<char>,
) -> bool {
    forall|template: minijinja::Template, answer: Result<String, Complaint>|
        may_find(env, "chat"@, Some(template)) && #[trigger] may_answer(
            template,
            p.context(effort),
            answer,
        ) ==> (answer matches Err(c) && objects_to_effort(c))
}

/// Every answer of a template under "chat" to the prompt with this effort is a
/// text.
pub open spec fn always_renders(
    env: minijinja::Environment,
    p: PromptView,
    effort: Seq<char>,
) -> bool {
    forall|template: minijinja::Template, answer: Result<String, Complaint>|
        may_find(env, "chat"@, Some(template)) && #[trigger] may_answer(
            template,
            p.context(effort),
            answer,
        ) ==> answer is Ok
}

/// Where the template objects to one name of a tier and renders the other, a
/// prompt asked for under the first name is rendered, and to what asking under
/// the other name may give.
pub proof fn either_name_renders_the_same(
    r: Result<Seq<char>, Seq<char>>,
    env: minijinja::Environment,
    p: PromptView,
    q: PromptView,
)
    requires
        follows(r, env, p),
        !may_find(env, "chat"@, None),
        same_but_effort(p, q),
        other_name(p.effort()) == Some(q.effort()),
        always_objects(env, p, p.effort()),
        always_renders(env, p, q.effort()),
    ensures
        r is Ok,
        follows(r, env, q),
{
    let (template, first, second) = choose|
        template: minijinja::Template,
        first: Result<String, Complaint>,
        second: Result<String, Complaint>,
    |
        #![trigger may_answer_both(template, p, first, second)]
        may_find(env, "chat"@, Some(template)) && may_answer_both(template, p, first, second) && r
            == concluded(p.effort(), first, second, p.continue_final);
    assert(may_answer(template, p.context(p.effort()), first));
    assert(may_answer(template, p.context(q.effort()), second));
    assert(q.context(q.effort()) == p.context(q.effort()));
    assert(may_answer_both(template, q, second, second));
}

/// Where the template objects to an effort that has no other name, there is no
/// prompt.
pub proof fn rejected_effort_gives_no_prompt(
    r: Result<Seq<char>, Seq<char>>,
    env: minijinja::Environment,
    p: PromptView,
)
    requires
        follows(r, env, p),
        other_name(p.effort()) is None,
        always_objects(env, p, p.effort()),
    ensures
        r is Err,
{
    if may_find(env, "chat"@, None) && r == Err::<Seq<char>, Seq<char>>(
        "Failed to get compiled template"@,
    ) {
    } else {
        let (template, first, second) = choose|
            template: minijinja::Template,
            first: Result<String, Complaint>,
            second: Result<String, Complaint>,
        |
            #![trigger may_answer_both(template, p, first, second)]
            may_find(env, "chat"@, Some(template)) && may_answer_both(template, p, first, second)
                && r == concluded(p.effort(), first, second, p.continue_final);
        assert(may_answer(template, p.context(p.effort()), first));
    }
}

/// The template gets every variable under its name: the messages, the tools and
/// the flag on earlier thinking where there are any, and what the request says
/// of thinking, effort and steering. A prompt for a new turn is opened unless the
/// last message is continued.
pub proof fn templates_get_every_variable(p: PromptView, effort: Seq<char>)
    ensures
        ({
            let c = p.context(effort);
            &&& c.field("messages"@) == Some(p.messages)
            &&& c.field("tools"@) == p.tools
            &&& c.field("add_generation_prompt"@) == Some(json::JsonView::Bool(!p.continue_final))
            &&& c.field("enable_thinking"@) == Some(json::JsonView::Bool(p.enable_thinking))
            &&& c.field("reasoning_effort"@) == Some(json::JsonView::Str(effort))
            &&& c.field("preserve_thinking"@) == (match p.flags.preserve_thinking {
                Some(b) => Some(json::JsonView::Bool(b)),
                None => None,
            })
            &&& c.field("disable_tool_steering"@) == Some(
                json::JsonView::Bool(p.flags.disable_tool_steering),
            )
            &&& c.field("add_vision_id"@) == Some(json::JsonView::Bool(false))
        }),
{
    reveal_strlit("messages");
    reveal_strlit("tools");
    reveal_strlit("add_generation_prompt");
    reveal_strlit("enable_thinking");
    reveal_strlit("reasoning_effort");
    reveal_strlit("preserve_thinking");
    reveal_strlit("disable_tool_steering");
    reveal_strlit("add_vision_id");
    assert("messages"@.len() == 8 && "tools"@.len() == 5 && "add_generation_prompt"@.len() == 21
        && "enable_thinking"@.len() == 15 && "reasoning_effort"@.len() == 16
        && "preserve_thinking"@.len() == 17 && "disable_tool_steering"@.len() == 21
        && "add_vision_id"@.len() == 13);
    assert("add_generation_prompt"@[0] != "disable_tool_steering"@[0]);
    reveal_with_fuel(json::entry_at, 9);
    let o = p.context(effort)->Object_0;
    let t: int = if p.tools is Some {
        1
    } else {
        0
    };
    let k: int = if p.flags.preserve_thinking is Some {
        1
    } else {
        0
    };
    assert(o.len() == 6 + t + k);
    assert(o[0] == ("messages"@, p.messages));
    if t == 1 {
        assert(o[1] == ("tools"@, p.tools->0));
    }
    assert(o[1 + t].0 == "add_generation_prompt"@);
    assert(o[2 + t].0 == "enable_thinking"@);
    assert(o[3 + t].0 == "reasoning_effort"@);
    if k == 1 {
        assert(o[4 + t].0 == "preserve_thinking"@);
    }
    assert(o[4 + t + k].0 == "disable_tool_steering"@);
    assert(o[5 + t + k].0 == "add_vision_id"@);
    assert(json::entry_at(o, "messages"@, 0) == 0);
    assert(json::entry_at(o, "add_generation_prompt"@, 0) == 1 + t);
    assert(json::entry_at(o, "enable_thinking"@, 0) == 2 + t);
    assert(json::entry_at(o, "reasoning_effort"@, 0) == 3 + t);
    assert(json::entry_at(o, "disable_tool_steering"@, 0) == 4 + t + k);
    assert(json::entry_at(o, "add_vision_id"@, 0) == 5 + t + k);
}

/// An effort that is asked for is rendered as it is; without one a thinking model
/// gets the middle tier and any other none.
pub proof fn asked_efforts_are_kept(e: Seq<char>, enable_thinking: bool)
    ensures
        effort_for(Some(e), enable_thinking) == e,
        effort_for(None, true) == "medium"@,
        effort_for(None, false) == "none"@,
{
}

/// A rendering that objects to the highest tier is tried under its other name, in
/// both directions; one that fails for another reason is not, and a text is
/// taken as it is.
pub proof fn objections_are_tried_again(c: Complaint, t: String, asked: Seq<char>)
    ensures
        objects_to_effort(c) ==> judged("high"@, Err(c)) == AttemptView::Retry("xhigh"@),
        objects_to_effort(c) ==> judged("xhigh"@, Err(c)) == AttemptView::Retry("high"@),
        !objects_to_effort(c) ==> judged(asked, Err(c)) == AttemptView::Failed(
            render_failure(c.text@),
        ),
        judged(asked, Ok(t)) == AttemptView::Rendered(t@),
{
    reveal_strlit("high");
    reveal_strlit("xhigh");
    assert("high"@.len() != "xhigh"@.len());
}

/// An objection counts wherever it stands, in any letter case: in the error
/// itself or in any of its causes.
pub proof fn objections_are_found_in_causes(c: Complaint, i: int)
    requires
        0 <= i < c.causes@.len(),
    ensures
        names_effort(c.text@) ==> objects_to_effort(c),
        names_effort(c.causes@[i]@) ==> objects_to_effort(c),
{
    let causes = text::texts(c.causes@);
    let n = c.causes@.len() as int;
    assert(causes[i] == c.causes@[i]@);
    let all = complaint_text(c.text@, causes, n);
    lemma_complaint_has(c.text@, causes, n, i, "reasoning effort"@);
    lemma_complaint_has(c.text@, causes, n, i, "reasoning_effort"@);
}

/// The text names the reasoning effort.
pub open spec fn names_effort(t: Seq<char>) -> bool {
    text::contains_text(text::ascii_lowercase(t), "reasoning effort"@) || text::contains_text(
        text::ascii_lowercase(t),
        "reasoning_effort"@,
    )
}

proof fn lemma_complaint_has(
    first: Seq<char>,
    causes: Seq<Seq<char>>,
    n: int,
    i: int,
    pat: Seq<char>,
)
    requires
        0 <= n <= causes.len(),
        0 <= i,
    ensures
        text::contains_text(text::ascii_lowercase(first), pat) ==> text::contains_text(
            complaint_text(first, causes, n),
            pat,
        ),
        i < n && text::contains_text(text::ascii_lowercase(causes[i]), pat) ==> text::contains_text(
            complaint_text(first, causes, n),
            pat,
        ),
    decreases n,
{
    if n > 0 {
        lemma_complaint_has(first, causes, n - 1, i, pat);
        let before = complaint_text(first, causes, n - 1);
        let last = text::ascii_lowercase(causes[n - 1]);
        let all = complaint_text(first, causes, n);
        if text::contains_text(before, pat) {
            let k = choose|k: int| #[trigger] text::matches_at(before, pat, k);
            assert(all.subrange(k, k + pat.len()) =~= before.subrange(k, k + pat.len()));
            assert(text::matches_at(all, pat, k));
        }
        if i == n - 1 && text::contains_text(last, pat) {
            let k = choose|k: int| #[trigger] text::matches_at(last, pat, k);
            let at = before.len() + 1 + k;
            assert(all.subrange(at, at + pat.len()) =~= last.subrange(k, k + pat.len()));
            assert(text::matches_at(all, pat, at));
        }
    }
}

/// A continued prompt stays open: behind the text of the last message neither the
/// end of the turn nor white space is left. Any other prompt is what was
/// rendered.
pub proof fn continued_prompts_stay_open(t: Seq<char>, tail: Seq<char>)
    requires
        forall|k: int| 0 <= k < tail.len() ==> text::is_space(#[trigger] tail[k]),
    ensures
        finished(t + "<|im_end|>"@ + tail, true) == t,
        finished(t, false) == t,
        t.len() > 0 && !text::is_space(t.last()) && !text::matches_at(
            t,
            "<|im_end|>"@,
            t.len() - "<|im_end|>"@.len(),
        ) ==> finished(t + tail, true) == t,
{
    reveal_strlit("<|im_end|>");
    let end = "<|im_end|>"@;
    assert(end.len() == 10);
    assert(end[9] == '>');
    let closed = t + end;
    assert(closed.last() == '>');
    lemma_trim_end(closed, tail);
    assert(t + end + tail =~= closed + tail);
    assert(closed.subrange(t.len() as int, t.len() as int + 10) =~= end);
    assert(closed.subrange(0, t.len() as int) =~= t);
    if t.len() > 0 && !text::is_space(t.last()) {
        lemma_trim_end(t, tail);
    }
}

proof fn lemma_trim_end(t: Seq<char>, tail: Seq<char>)
    requires
        t.len() > 0,
        !text::is_space(t.last()),
        forall|k: int| 0 <= k < tail.len() ==> text::is_space(#[trigger] tail[k]),
    ensures
        trim_end(t + tail) == t,
{
    let s = t + tail;
    lemma_skip_back(s, t.len() as int, s.len() as int);
    assert(s[t.len() - 1] == t.last());
    assert(text::skip_space_back(s, 0, t.len() as int) == t.len());
    assert(s.subrange(0, t.len() as int) =~= t);
}

proof fn lemma_skip_back(s: Seq<char>, n: int, to: int)
    requires
        0 <= n <= to <= s.len(),
        forall|k: int| n <= k < to ==> text::is_space(#[trigger] s[k]),
    ensures
        text::skip_space_back(s, 0, to) == text::skip_space_back(s, 0, n),
    decreases to - n,
{
    if n < to {
        assert(text::is_space(s[to - 1]));
        lemma_skip_back(s, n, to - 1);
    }
}

/// The text of a first rendering is the prompt, and a second one counts only
/// after an objection: its text is then the prompt, and its failure the answer.
pub proof fn rendered_texts_are_prompts(
    asked: Seq<char>,
    t: String,
    c: Complaint,
    second: Result<String, Complaint>,
    continue_final: bool,
)
    ensures
        concluded(asked, Ok(t), second, continue_final) == Ok::<Seq<char>, Seq<char>>(
            finished(t@, continue_final),
        ),
        !objects_to_effort(c) ==> concluded(asked, Err(c), second, continue_final) == Err::<
            Seq<char>,
            Seq<char>,
        >(render_failure(c.text@)),
        objects_to_effort(c) && (asked == "high"@ || asked == "xhigh"@) ==> {
            &&& second matches Ok(u) ==> concluded(asked, Err(c), second, continue_final) == Ok::<
                Seq<char>,
                Seq<char>,
            >(finished(u@, continue_final))
            &&& second matches Err(d) ==> concluded(asked, Err(c), second, continue_final) == Err::<
                Seq<char>,
                Seq<char>,
            >(render_failure(d.text@))
        },
{
    objections_are_tried_again(c, t, asked);
}

} // verus!
