//! What the editor underlines.
//!
//! Three tiers, cheapest first: parsing; the rules on loads, names and lints; and
//! evaluating the buffer against the project. This module decides what is reported and
//! where: never a problem that checking the project would not report.

use vstd::prelude::*;

use crate::lsp::env::Role;
use crate::schema::ModuleKind;
use crate::text::{
    chars_of, find_char, from_chars, is_digit, is_letter, join3, join5, letter, ascii_digit,
    next_at, same,
};

verus! {

/// The name of what is reported of a broken load. A file with one is not evaluated.
pub const LOAD_RULE: &'static str = "kiln-load";

/// How loudly something is reported.
#[derive(Debug, Clone, Copy, PartialEq, Eq, Structural)]
pub enum EvalSeverity {
    Error,
    Warning,
    Advice,
}

/// A stretch of a document, by line and column.
#[derive(Debug, Clone, Copy, PartialEq, Eq, Structural)]
pub struct Span {
    pub begin_line: usize,
    pub begin_column: usize,
    pub end_line: usize,
    pub end_column: usize,
}

/// One thing to report.
#[derive(Debug)]
pub struct Message {
    pub path: String,
    pub span: Option<Span>,
    pub severity: EvalSeverity,
    pub name: String,
    pub description: String,
}

pub struct MessageView {
    pub path: Seq<char>,
    pub span: Option<Span>,
    pub severity: EvalSeverity,
    pub name: Seq<char>,
    pub description: Seq<char>,
}

pub open spec fn message_view(message: Message) -> MessageView {
    MessageView {
        path: message.path@,
        span: message.span,
        severity: message.severity,
        name: message.name@,
        description: message.description@,
    }
}

pub open spec fn message_views(messages: Seq<Message>) -> Seq<MessageView> {
    messages.map_values(|message: Message| message_view(message))
}

// ---------------------------------------------------------------------------
// Lints
// ---------------------------------------------------------------------------

/// The lints worth showing, and how loudly.
pub open spec fn lint_level(name: Seq<char>) -> Option<EvalSeverity> {
    if name == "duplicate-top-level-assign"@ || name == "duplicate-key"@ || name
        == "using-unassigned"@ {
        Some(EvalSeverity::Error)
    } else if name == "using-maybe-undefined"@ || name == "missing-return-expression"@ || name
        == "unreachable"@ || name == "misplaced-load"@ {
        Some(EvalSeverity::Warning)
    } else {
        None
    }
}

/// How loudly a lint is reported, where it is. Most lints are aimed at other code: unused
/// bindings are what a module is made of.
///
/// Of two bindings of one name the first is dead, and a repeated key drops an arm of a
/// dispatch map or a field of a schema, so both are errors.
pub fn lint_severity(name: &str) -> (r: Option<EvalSeverity>)
    ensures
        r == lint_level(name@),
{
    if same(name, "duplicate-top-level-assign") || same(name, "duplicate-key") || same(
        name,
        "using-unassigned",
    ) {
        Some(EvalSeverity::Error)
    } else if same(name, "using-maybe-undefined") || same(name, "missing-return-expression") || same(
        name,
        "unreachable",
    ) || same(name, "misplaced-load") {
        Some(EvalSeverity::Warning)
    } else {
        None
    }
}

/// The lints of a module that are worth showing, each as loudly as it is to be. A lint is
/// called by its short name.
pub open spec fn shown_lints(lints: Seq<MessageView>, rel: Seq<char>) -> Seq<MessageView>
    decreases lints.len(),
{
    if lints.len() == 0 {
        lints
    } else {
        let rest = shown_lints(lints.drop_last(), rel);
        match lint_level(lints.last().name) {
            Some(severity) => rest.push(MessageView { path: rel, severity, ..lints.last() }),
            None => rest,
        }
    }
}

/// The lints of a module that are worth showing, each as loudly as it is to be.
pub fn check_lints(lints: &Vec<Message>, rel: &str) -> (r: Vec<Message>)
    ensures
        message_views(r@) == shown_lints(message_views(lints@), rel@),
{
    let ghost all = message_views(lints@);
    let mut out: Vec<Message> = Vec::new();
    let mut i: usize = 0;
    assert(all.take(0) =~= Seq::empty());
    assert(message_views(out@) =~= Seq::empty());
    while i < lints.len()
        invariant
            i <= lints.len(),
            all == message_views(lints@),
            message_views(out@) == shown_lints(all.take(i as int), rel@),
        decreases lints.len() - i,
    {
        assert(all.take(i as int + 1).drop_last() =~= all.take(i as int));
        assert(all.take(i as int + 1).last() == message_view(lints@[i as int]));
        if let Some(severity) = lint_severity(&lints[i].name) {
            let ghost had = message_views(out@);
            let shown = Message {
                path: rel.to_owned(),
                span: lints[i].span,
                severity,
                name: lints[i].name.clone(),
                description: lints[i].description.clone(),
            };
            let ghost said = message_view(shown);
            out.push(shown);
            assert(message_views(out@) =~= had.push(said));
        }
        i += 1;
    }
    assert(all.take(i as int) =~= all);
    out
}

// ---------------------------------------------------------------------------
// Documents outside a project
// ---------------------------------------------------------------------------

/// What is said of a document that is in no project, where it parses: nothing more can
/// honestly be said of it.
pub fn unlocated(rel: &str) -> (r: Message)
    ensures
        message_view(r) == (MessageView {
            path: rel@,
            span: None,
            severity: EvalSeverity::Advice,
            name: "kiln-not-a-module"@,
            description: "not a kiln module: kiln loads .star files under events/, lib/, commands/, projectors/, effects/ or tests/ in a project directory, so this file is never loaded and its builtins are unknown"@,
        }),
{
    Message {
        path: rel.to_owned(),
        span: None,
        severity: EvalSeverity::Advice,
        name: "kiln-not-a-module".to_owned(),
        description: "not a kiln module: kiln loads .star files under events/, lib/, commands/, projectors/, effects/ or tests/ in a project directory, so this file is never loaded and its builtins are unknown".to_owned(),
    }
}

// ---------------------------------------------------------------------------
// Loads
// ---------------------------------------------------------------------------

/// A load statement: the path as it is written, where it is written, the path from the
/// project's root or why there is none, whether that is in a shared directory, and whether
/// there is such a file.
#[derive(Debug)]
pub struct Load {
    pub module_id: String,
    pub span: Span,
    pub normalized: Result<String, String>,
    pub shared: bool,
    pub exists: bool,
}

/// Why a load may not name what it names.
pub open spec fn refused_load(path: Seq<char>, label: Seq<char>) -> Seq<char> {
    "load(\""@ + path + "\") is not allowed; a "@ + label + " may only load from events/ or lib/"@
}

/// Why a load may not name what it names.
pub fn refused_load_text(path: &str, label: &str) -> (r: String)
    ensures
        r@ == refused_load(path@, label@),
{
    join5("load(\"", path, "\") is not allowed; a ", label, " may only load from events/ or lib/")
}

/// What is wrong with a load, in a module called `label`.
pub open spec fn load_problem(load: Load, label: Seq<char>) -> Option<Seq<char>> {
    match load.normalized {
        Err(message) => Some(message@),
        Ok(_) => if !load.shared {
            Some(refused_load(load.module_id@, label))
        } else if !load.exists {
            Some(
                "load(\""@ + load.module_id@
                    + "\") could not be resolved: no such file in this project"@,
            )
        } else {
            None
        },
    }
}

/// What is reported of a broken load.
pub open spec fn load_message(rel: Seq<char>, span: Span, description: Seq<char>) -> MessageView {
    MessageView {
        path: rel,
        span: Some(span),
        severity: EvalSeverity::Error,
        name: LOAD_RULE@,
        description,
    }
}

/// What is reported of the first loads of a module.
pub open spec fn load_messages(loads: Seq<Load>, rel: Seq<char>, label: Seq<char>) -> Seq<MessageView>
    decreases loads.len(),
{
    if loads.len() == 0 {
        Seq::empty()
    } else {
        let rest = load_messages(loads.drop_last(), rel, label);
        match load_problem(loads.last(), label) {
            Some(description) => rest.push(load_message(rel, loads.last().span, description)),
            None => rest,
        }
    }
}

fn broken_load(load: &Load, label: &str) -> (r: Option<String>)
    ensures
        crate::text::option_view(r) == load_problem(*load, label@),
{
    match &load.normalized {
        Err(message) => Some(message.clone()),
        Ok(_) => {
            if !load.shared {
                Some(refused_load_text(&load.module_id, label))
            } else if !load.exists {
                Some(
                    join3(
                        "load(\"",
                        &load.module_id,
                        "\") could not be resolved: no such file in this project",
                    ),
                )
            } else {
                None
            }
        },
    }
}

/// The rules on loads, reported where a load is written: as it is typed, rather than once
/// everything else is right.
pub fn check_loads(loads: &Vec<Load>, rel: &str, label: &str) -> (r: Vec<Message>)
    ensures
        message_views(r@) == load_messages(loads@, rel@, label@),
{
    let mut out: Vec<Message> = Vec::new();
    let mut i: usize = 0;
    assert(loads@.take(0) =~= Seq::empty());
    assert(message_views(out@) =~= Seq::empty());
    while i < loads.len()
        invariant
            i <= loads.len(),
            message_views(out@) == load_messages(loads@.take(i as int), rel@, label@),
        decreases loads.len() - i,
    {
        assert(loads@.take(i as int + 1).drop_last() =~= loads@.take(i as int));
        if let Some(description) = broken_load(&loads[i], label) {
            let ghost had = message_views(out@);
            let message = Message {
                path: rel.to_owned(),
                span: Some(loads[i].span),
                severity: EvalSeverity::Error,
                name: LOAD_RULE.to_owned(),
                description,
            };
            let ghost said = message_view(message);
            out.push(message);
            assert(message_views(out@) =~= had.push(said));
        }
        i += 1;
    }
    assert(loads@.take(i as int) =~= loads@);
    out
}

/// A module without a broken load has nothing reported of its loads.
pub proof fn law_good_loads_report_nothing(loads: Seq<Load>, rel: Seq<char>, label: Seq<char>)
    requires
        forall|i: int| 0 <= i < loads.len() ==> load_problem(#[trigger] loads[i], label) is None,
    ensures
        load_messages(loads, rel, label).len() == 0,
    decreases loads.len(),
{
    if loads.len() > 0 {
        law_good_loads_report_nothing(loads.drop_last(), rel, label);
        assert(load_problem(loads[loads.len() - 1], label) is None);
    }
}

// ---------------------------------------------------------------------------
// Evaluating the buffer
// ---------------------------------------------------------------------------

/// Whether a broken load is among what was found.
pub open spec fn has_broken_load(messages: Seq<MessageView>) -> bool {
    exists|i: int| 0 <= i < messages.len() && (#[trigger] messages[i]).name == LOAD_RULE@
}

/// Whether a buffer of which that was found is evaluated.
pub open spec fn is_evaluated(messages: Seq<MessageView>, wanted: bool) -> bool {
    wanted && !has_broken_load(messages)
}

/// Whether the buffer is evaluated against its project: where that is wanted, and no load
/// is broken. A file with a broken load is not evaluated by the loader either, and doing it
/// would report the same import twice in different words.
pub fn evaluates(messages: &Vec<Message>, wanted: bool) -> (r: bool)
    ensures
        r == is_evaluated(message_views(messages@), wanted),
        r == (wanted && !has_broken_load(message_views(messages@))),
{
    if !wanted {
        return false;
    }
    let ghost all = message_views(messages@);
    let mut i: usize = 0;
    while i < messages.len()
        invariant
            i <= messages.len(),
            all == message_views(messages@),
            forall|k: int| 0 <= k < i ==> (#[trigger] all[k]).name != LOAD_RULE@,
        decreases messages.len() - i,
    {
        assert(all[i as int] == message_view(messages@[i as int]));
        if same(&messages[i].name, LOAD_RULE) {
            return false;
        }
        i += 1;
    }
    true
}

/// What an evaluated module is checked as.
#[derive(Debug, Clone, Copy, PartialEq, Eq, Structural)]
pub enum Shape {
    /// A module with a definition of its kind.
    Module(ModuleKind),
    /// A list of test cases.
    Cases,
    /// Shared code, which has no shape of its own.
    Shared,
}

/// What an evaluated module of that role is checked as.
pub open spec fn shape_for(role: Role) -> Shape {
    match role {
        Role::Command { .. } => Shape::Module(ModuleKind::Command),
        Role::Projector => Shape::Module(ModuleKind::Projector),
        Role::Effect => Shape::Module(ModuleKind::Effect),
        Role::Test => Shape::Cases,
        Role::Events | Role::Lib => Shape::Shared,
    }
}

/// What an evaluated module of that role is checked as.
pub fn shape_of(role: Role) -> (r: Shape)
    ensures
        r == shape_for(role),
        r == match role {
            Role::Command { .. } => Shape::Module(ModuleKind::Command),
            Role::Projector => Shape::Module(ModuleKind::Projector),
            Role::Effect => Shape::Module(ModuleKind::Effect),
            Role::Test => Shape::Cases,
            Role::Events | Role::Lib => Shape::Shared,
        },
{
    match role {
        Role::Command { .. } => Shape::Module(ModuleKind::Command),
        Role::Projector => Shape::Module(ModuleKind::Projector),
        Role::Effect => Shape::Module(ModuleKind::Effect),
        Role::Test => Shape::Cases,
        Role::Events | Role::Lib => Shape::Shared,
    }
}

// ---------------------------------------------------------------------------
// Findings
// ---------------------------------------------------------------------------

/// How bad a finding is.
#[derive(Debug, Clone, Copy, PartialEq, Eq, Structural)]
pub enum Severity {
    Error,
    Warning,
}

/// What checking a module found.
#[derive(Debug)]
pub struct Finding {
    pub location: String,
    pub span: Option<Span>,
    pub severity: Severity,
    pub message: String,
}

/// A statement of a module, as far as it binds a name.
#[derive(Debug)]
pub enum Stmt {
    Block(Vec<Stmt>),
    /// An assignment, with the name it binds where it binds one.
    Assign { name: Option<String>, span: Span },
    Def { name: String, span: Span },
    Other,
}

/// Where a statement binds a name at the top level.
pub open spec fn binding(stmt: Stmt, name: Seq<char>) -> Option<Span>
    decreases stmt,
{
    match stmt {
        Stmt::Block(inner) => first_binding(inner@, name),
        Stmt::Assign { name: Some(bound), span } => if bound@ == name {
            Some(span)
        } else {
            None
        },
        Stmt::Def { name: bound, span } => if bound@ == name {
            Some(span)
        } else {
            None
        },
        _ => None,
    }
}

/// Where the first of some statements that binds a name does.
pub open spec fn first_binding(stmts: Seq<Stmt>, name: Seq<char>) -> Option<Span>
    decreases stmts,
{
    if stmts.len() == 0 {
        None
    } else {
        match first_binding(stmts.drop_last(), name) {
            Some(span) => Some(span),
            None => binding(stmts.last(), name),
        }
    }
}

proof fn lemma_first_binding(stmts: Seq<Stmt>, name: Seq<char>, at: int)
    requires
        0 <= at <= stmts.len(),
        first_binding(stmts.take(at), name) is Some,
    ensures
        first_binding(stmts, name) == first_binding(stmts.take(at), name),
    decreases stmts.len(),
{
    if at == stmts.len() {
        assert(stmts.take(at) =~= stmts);
    } else {
        assert(stmts.drop_last().take(at) =~= stmts.take(at));
        lemma_first_binding(stmts.drop_last(), name, at);
    }
}

/// Where a top-level binding of a name is written.
pub fn binding_span(stmt: &Stmt, name: &str) -> (r: Option<Span>)
    ensures
        r == binding(*stmt, name@),
    decreases *stmt,
{
    match stmt {
        Stmt::Block(inner) => {
            let mut i: usize = 0;
            assert(inner@.take(0) =~= Seq::empty());
            while i < inner.len()
                invariant
                    i <= inner.len(),
                    decreases_to!(*stmt => inner@),
                    first_binding(inner@.take(i as int), name@) is None,
                    binding(*stmt, name@) == first_binding(inner@, name@),
                decreases inner.len() - i,
            {
                assert(inner@.take(i as int + 1).drop_last() =~= inner@.take(i as int));
                let found = binding_span(&inner[i], name);
                if found.is_some() {
                    proof {
                        lemma_first_binding(inner@, name@, i as int + 1);
                    }
                    return found;
                }
                i += 1;
            }
            assert(inner@.take(i as int) =~= inner@);
            None
        },
        Stmt::Assign { name: Some(bound), span } => {
            if same(bound, name) {
                Some(*span)
            } else {
                None
            }
        },
        Stmt::Def { name: bound, span } => {
            if same(bound, name) {
                Some(*span)
            } else {
                None
            }
        },
        _ => None,
    }
}

/// Whether a text is an identifier.
pub open spec fn is_identifier(text: Seq<char>) -> bool {
    &&& text.len() > 0
    &&& !is_digit(text[0])
    &&& forall|i: int|
        0 <= i < text.len() ==> is_letter(#[trigger] text[i]) || is_digit(text[i]) || text[i] == '_'
}

/// What stands between the first two backticks of a text.
pub open spec fn first_quoted(text: Seq<char>) -> Option<Seq<char>> {
    let open = next_at(text, '`', 0);
    let close = next_at(text, '`', open + 1);
    if open < text.len() && close < text.len() {
        Some(text.subrange(open + 1, close))
    } else {
        None
    }
}

/// The identifier that a message names in backticks, where what stands between the first
/// two is one.
pub open spec fn named_in(message: Seq<char>) -> Option<Seq<char>> {
    match first_quoted(message) {
        Some(quoted) => if is_identifier(quoted) {
            Some(quoted)
        } else {
            None
        },
        None => None,
    }
}

fn identifier_at(chars: &Vec<char>, from: usize, to: usize) -> (r: bool)
    requires
        from <= to <= chars.len(),
    ensures
        r == is_identifier(chars@.subrange(from as int, to as int)),
{
    let ghost text = chars@.subrange(from as int, to as int);
    if from == to {
        return false;
    }
    if ascii_digit(chars[from]) {
        assert(text[0] == chars@[from as int]);
        return false;
    }
    let mut i: usize = from;
    while i < to
        invariant
            from <= i <= to <= chars.len(),
            text == chars@.subrange(from as int, to as int),
            forall|k: int|
                0 <= k < i - from ==> is_letter(#[trigger] text[k]) || is_digit(text[k]) || text[k]
                    == '_',
        decreases to - i,
    {
        let c: char = chars[i];
        assert(text[i - from] == c);
        if !letter(c) && !ascii_digit(c) && c != '_' {
            return false;
        }
        i += 1;
    }
    assert(text[0] == chars@[from as int]);
    true
}

/// The first identifier that a message names in backticks, if what it first quotes is one.
pub fn quoted_name(message: &str) -> (r: Option<String>)
    ensures
        crate::text::option_view(r) == named_in(message@),
{
    let chars: Vec<char> = chars_of(message);
    let open: usize = find_char(&chars, '`', 0);
    if open == chars.len() {
        return None;
    }
    let close: usize = find_char(&chars, '`', open + 1);
    if close == chars.len() {
        return None;
    }
    if identifier_at(&chars, open + 1, close) {
        Some(from_chars(&chars, open + 1, close))
    } else {
        None
    }
}

/// A finding as it is reported: where it says it is, or else where the binding that it
/// names is written.
pub open spec fn finding_view(finding: Finding, module: Stmt) -> MessageView {
    MessageView {
        path: finding.location@,
        span: match finding.span {
            Some(span) => Some(span),
            None => match named_in(finding.message@) {
                Some(name) => binding(module, name),
                None => None,
            },
        },
        severity: match finding.severity {
            Severity::Error => EvalSeverity::Error,
            Severity::Warning => EvalSeverity::Warning,
        },
        name: "kiln"@,
        description: finding.message@,
    }
}

/// A finding as it is reported. A finding on a module's shape carries no place and names
/// the binding that it is about in backticks; one that names none stays with the file.
pub fn finding_message(finding: &Finding, module: &Stmt) -> (r: Message)
    ensures
        message_view(r) == finding_view(*finding, *module),
{
    let span = match finding.span {
        Some(span) => Some(span),
        None => match quoted_name(&finding.message) {
            Some(name) => binding_span(module, &name),
            None => None,
        },
    };
    let severity = match finding.severity {
        Severity::Error => EvalSeverity::Error,
        Severity::Warning => EvalSeverity::Warning,
    };
    Message {
        path: finding.location.clone(),
        span,
        severity,
        name: "kiln".to_owned(),
        description: finding.message.clone(),
    }
}

/// What evaluating a buffer came to.
pub enum Evaluated {
    /// It failed, with the one error that is reported: nothing is evaluated past it.
    Failed(Message),
    /// Its name, its definition or its test cases could not be read, and why.
    Unreadable(String),
    /// It was checked, and this was found.
    Checked(Vec<Finding>),
}

/// What is reported of the first findings.
pub open spec fn finding_views(findings: Seq<Finding>, module: Stmt) -> Seq<MessageView> {
    findings.map_values(|finding: Finding| finding_view(finding, module))
}

/// A finding that something is wrong with a file.
pub open spec fn unreadable_view(rel: Seq<char>, reason: Seq<char>, module: Stmt) -> MessageView {
    MessageView {
        path: rel,
        span: match named_in(reason) {
            Some(name) => binding(module, name),
            None => None,
        },
        severity: EvalSeverity::Error,
        name: "kiln"@,
        description: reason,
    }
}

/// What evaluating the buffer against its project adds to the report.
pub open spec fn project_views(evaluated: Evaluated, rel: Seq<char>, module: Stmt) -> Seq<MessageView> {
    match evaluated {
        Evaluated::Failed(message) => seq![message_view(message)],
        Evaluated::Unreadable(reason) => seq![unreadable_view(rel, reason@, module)],
        Evaluated::Checked(findings) => finding_views(findings@, module),
    }
}

/// What evaluating the buffer against its project adds to the report.
pub fn project_tier(evaluated: Evaluated, rel: &str, module: &Stmt) -> (r: Vec<Message>)
    ensures
        message_views(r@) == project_views(evaluated, rel@, *module),
        message_views(r@) == match evaluated {
            Evaluated::Failed(message) => seq![message_view(message)],
            Evaluated::Unreadable(reason) => seq![unreadable_view(rel@, reason@, *module)],
            Evaluated::Checked(findings) => finding_views(findings@, *module),
        },
{
    match evaluated {
        Evaluated::Failed(message) => {
            let ghost said = message_view(message);
            let out: Vec<Message> = vec![message];
            assert(message_views(out@) =~= seq![said]);
            out
        },
        Evaluated::Unreadable(reason) => {
            let finding = Finding {
                location: rel.to_owned(),
                span: None,
                severity: Severity::Error,
                message: reason,
            };
            let out: Vec<Message> = vec![finding_message(&finding, module)];
            assert(message_views(out@) =~= seq![unreadable_view(rel@, reason@, *module)]);
            out
        },
        Evaluated::Checked(findings) => {
            let ghost all = finding_views(findings@, *module);
            let mut out: Vec<Message> = Vec::new();
            let mut i: usize = 0;
            assert(message_views(out@) =~= all.take(0));
            while i < findings.len()
                invariant
                    i <= findings.len(),
                    all == finding_views(findings@, *module),
                    message_views(out@) == all.take(i as int),
                decreases findings.len() - i,
            {
                let ghost had = message_views(out@);
                let message = finding_message(&findings[i], module);
                let ghost said = message_view(message);
                out.push(message);
                assert(said == all[i as int]);
                assert(message_views(out@) =~= had.push(said));
                assert(message_views(out@) =~= all.take(i as int + 1));
                i += 1;
            }
            assert(message_views(out@) =~= all);
            out
        },
    }
}

// ---------------------------------------------------------------------------
// Reporting once
// ---------------------------------------------------------------------------

/// Whether two messages say the same at the same place.
pub open spec fn alike(a: MessageView, b: MessageView) -> bool {
    a.span == b.span && a.description == b.description
}

/// Whether a message is alike one of a list.
pub open spec fn said(messages: Seq<MessageView>, message: MessageView) -> bool {
    exists|i: int| 0 <= i < messages.len() && alike(#[trigger] messages[i], message)
}

/// The messages of a list without those that are alike an earlier one.
pub open spec fn once(messages: Seq<MessageView>) -> Seq<MessageView>
    decreases messages.len(),
{
    if messages.len() == 0 {
        messages
    } else {
        let rest = once(messages.drop_last());
        if said(rest, messages.last()) {
            rest
        } else {
            rest.push(messages.last())
        }
    }
}

fn is_said(messages: &Vec<Message>, message: &Message) -> (r: bool)
    ensures
        r == said(message_views(messages@), message_view(*message)),
{
    let ghost all = message_views(messages@);
    let ghost wanted = message_view(*message);
    let mut i: usize = 0;
    while i < messages.len()
        invariant
            i <= messages.len(),
            all == message_views(messages@),
            wanted == message_view(*message),
            forall|k: int| 0 <= k < i ==> !alike(#[trigger] all[k], wanted),
        decreases messages.len() - i,
    {
        assert(all[i as int] == message_view(messages@[i as int]));
        let here = match (&messages[i].span, &message.span) {
            (Some(a), Some(b)) => *a == *b,
            (None, None) => true,
            _ => false,
        };
        if here && same(&messages[i].description, &message.description) {
            return true;
        }
        i += 1;
    }
    false
}

/// The messages without those that say the same at the same place as an earlier one: two
/// tiers can describe one problem.
pub fn dedupe(messages: Vec<Message>) -> (r: Vec<Message>)
    ensures
        message_views(r@) == once(message_views(messages@)),
{
    let ghost all = message_views(messages@);
    let mut rest = messages;
    let mut turned: Vec<Message> = Vec::new();
    assert(all.take(all.len() as int) =~= all);
    assert(message_views(turned@) =~= all.skip(all.len() as int).reverse());
    while rest.len() > 0
        invariant
            rest.len() <= all.len(),
            message_views(rest@) == all.take(rest.len() as int),
            message_views(turned@) == all.skip(rest.len() as int).reverse(),
        decreases rest.len(),
    {
        let ghost was = message_views(rest@);
        let ghost had = message_views(turned@);
        let message = rest.pop().unwrap();
        let ghost at = rest.len() as int;
        turned.push(message);
        proof {
            assert(message_views(rest@) =~= was.drop_last());
            assert(was[at] == message_view(message));
            assert(all[at] == message_view(message));
            assert(message_views(rest@) =~= all.take(at));
            assert(message_views(turned@) =~= had.push(message_view(message)));
            assert(message_views(turned@) =~= all.skip(at).reverse());
        }
    }
    let mut out: Vec<Message> = Vec::new();
    let ghost mut done: int = 0;
    proof {
        assert(all.take(0) =~= Seq::empty());
        assert(message_views(out@) =~= Seq::empty());
    }
    while turned.len() > 0
        invariant
            turned.len() <= all.len(),
            done == all.len() - turned.len(),
            message_views(turned@) == all.skip(done).reverse(),
            message_views(out@) == once(all.take(done)),
        decreases turned.len(),
    {
        let ghost was = message_views(turned@);
        let message = turned.pop().unwrap();
        proof {
            assert(was.last() == message_view(message));
            assert(was.last() == all[done]);
            assert(message_views(turned@) =~= was.drop_last());
            assert(message_views(turned@) =~= all.skip(done + 1).reverse());
            assert(all.take(done + 1).drop_last() =~= all.take(done));
            assert(all.take(done + 1).last() == all[done]);
            done = done + 1;
        }
        if !is_said(&out, &message) {
            let ghost had = message_views(out@);
            out.push(message);
            assert(message_views(out@) =~= had.push(message_view(message)));
        }
    }
    assert(all.take(done) =~= all);
    out
}

fn push_all(out: &mut Vec<Message>, more: Vec<Message>)
    ensures
        message_views(final(out)@) == message_views(old(out)@) + message_views(more@),
{
    let ghost start = message_views(out@);
    let ghost added = message_views(more@);
    let mut more = more;
    out.append(&mut more);
    assert(message_views(out@) =~= start + added);
}

/// What is reported of a document that does not need to be evaluated: its loads, its names
/// and its lints, in that order.
pub fn resolve_tier(loads: Vec<Message>, names: Vec<Message>, lints: Vec<Message>) -> (r: Vec<Message>)
    ensures
        message_views(r@) == message_views(loads@) + message_views(names@) + message_views(lints@),
{
    let mut out = loads;
    push_all(&mut out, names);
    push_all(&mut out, lints);
    out
}

/// What is reported of a document of which the error that it does not parse with, or what the
/// earlier tiers found, is given.
pub open spec fn reported(
    parsed: Result<Seq<MessageView>, MessageView>,
    project: Seq<MessageView>,
) -> Seq<MessageView> {
    match parsed {
        Err(error) => seq![error],
        Ok(resolved) => once(resolved + project),
    }
}

/// What the earlier tiers found, as what it says.
pub open spec fn parsed_view(parsed: Result<Vec<Message>, Message>) -> Result<Seq<MessageView>, MessageView> {
    match parsed {
        Err(error) => Err(message_view(error)),
        Ok(resolved) => Ok(message_views(resolved@)),
    }
}

/// What is reported of a document: the one error of a file that does not parse, or what
/// each tier found, once.
pub fn diagnose(parsed: Result<Vec<Message>, Message>, project: Vec<Message>) -> (r: Vec<Message>)
    ensures
        message_views(r@) == reported(parsed_view(parsed), message_views(project@)),
        message_views(r@) == match parsed {
            Err(error) => seq![message_view(error)],
            Ok(resolved) => once(message_views(resolved@) + message_views(project@)),
        },
{
    match parsed {
        Err(error) => {
            let ghost said = message_view(error);
            let out: Vec<Message> = vec![error];
            assert(message_views(out@) =~= seq![said]);
            out
        },
        Ok(resolved) => {
            let mut out = resolved;
            push_all(&mut out, project);
            dedupe(out)
        },
    }
}

/// Everything that was found is reported, and nothing twice at the same place.
pub proof fn law_everything_is_reported_once(messages: Seq<MessageView>)
    ensures
        forall|i: int| 0 <= i < messages.len() ==> said(once(messages), #[trigger] messages[i]),
        forall|i: int, j: int|
            0 <= i < j < once(messages).len() ==> !alike(
                #[trigger] once(messages)[i],
                #[trigger] once(messages)[j],
            ),
    decreases messages.len(),
{
    if messages.len() > 0 {
        let before = messages.drop_last();
        law_everything_is_reported_once(before);
        let rest = once(before);
        let all = once(messages);
        assert forall|i: int| 0 <= i < messages.len() implies said(all, #[trigger] messages[i]) by {
            if i < messages.len() - 1 {
                assert(before[i] == messages[i]);
                assert(said(rest, before[i]));
                let k = choose|k: int| 0 <= k < rest.len() && alike(#[trigger] rest[k], before[i]);
                assert(all[k] == rest[k]);
            } else if said(rest, messages.last()) {
                assert(all == rest);
            } else {
                assert(alike(all[rest.len() as int], messages.last()));
            }
        }
        assert forall|i: int, j: int| 0 <= i < j < all.len() implies !alike(
            #[trigger] all[i],
            #[trigger] all[j],
        ) by {
            assert(all[i] == rest[i]);
            if j < rest.len() {
                assert(all[j] == rest[j]);
            } else {
                assert(!said(rest, messages.last()));
            }
        }
    }
}

} // verus!
