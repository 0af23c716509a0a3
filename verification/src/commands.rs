//! The local slash commands of the terminal interface and the texts that
//! they show.
use vstd::prelude::*;

pub use crate::usage::session_usage_text;

use crate::reasoning::{ReasoningEffort, optional_effort_label};
use crate::text::{
    ascii_lower, is_space, leading_word, trim_end, trim_start,
    chars_eq_str, chars_of, decimal, lemma_first_word, lower, lower_chars, push_decimal, push_str,
    slice_chars, split_words, string_of, trim, trim_chars, words,
};
use crate::usage::{Usage, usage_line};

verus! {

/// What a line typed in the interface asks for.
#[derive(Debug, Clone, PartialEq, Eq)]
pub enum Command {
    Message(String),
    Help,
    Status,
    Tools,
    Config,
    ConfigShow,
    Clear,
    New,
    Exit,
    Unknown(String),
}

/// Whether `c` is what a typed line `s` asks for.
///
/// The line is trimmed. A line that does not start with `/` is a message; one
/// that starts with `//` is a message without its first `/`. Otherwise the
/// first word, in ASCII lower case, names the command, and the command takes no
/// further word (`/config` also takes the single word `show`, in any case);
/// anything else is an unknown command, kept as the trimmed line.
pub open spec fn parse_result(s: Seq<char>, c: Command) -> bool {
    let t = trim(s);
    if !(t.len() > 0 && t[0] == '/') {
        c matches Command::Message(m) && m@ == t
    } else if t.len() >= 2 && t[1] == '/' {
        c matches Command::Message(m) && m@ == t.skip(1)
    } else {
        let ws = words(t);
        let name = lower(ws[0]);
        let bare = ws.len() == 1;
        if (name == "/help"@ || name == "/?"@) && bare {
            c is Help
        } else if name == "/status"@ && bare {
            c is Status
        } else if name == "/tools"@ && bare {
            c is Tools
        } else if name == "/config"@ && bare {
            c is Config
        } else if name == "/config"@ && ws.len() == 2 && lower(ws[1]) == "show"@ {
            c is ConfigShow
        } else if name == "/clear"@ && bare {
            c is Clear
        } else if name == "/new"@ && bare {
            c is New
        } else if (name == "/exit"@ || name == "/quit"@) && bare {
            c is Exit
        } else {
            c matches Command::Unknown(u) && u@ == t
        }
    }
}

/// Interprets a line typed in the interface before deciding whether it goes
/// to the model.
pub fn parse(input: &str) -> (r: Command)
    ensures
        parse_result(input@, r),
{
    let cs = chars_of(input);
    let t = trim_chars(&cs);
    if t.len() == 0 || t[0] != '/' {
        return Command::Message(string_of(&t));
    }
    if t.len() >= 2 && t[1] == '/' {
        let rest = slice_chars(&t, 1, t.len());
        assert(rest@ =~= t@.skip(1));
        return Command::Message(string_of(&rest));
    }
    let ws = split_words(&t);
    proof {
        assert(!crate::text::is_space('/'));
        lemma_first_word(t@);
    }
    let name = lower_chars(&ws[0]);
    let bare = ws.len() == 1;
    if (chars_eq_str(&name, "/help") || chars_eq_str(&name, "/?")) && bare {
        Command::Help
    } else if chars_eq_str(&name, "/status") && bare {
        Command::Status
    } else if chars_eq_str(&name, "/tools") && bare {
        Command::Tools
    } else if chars_eq_str(&name, "/config") && bare {
        Command::Config
    } else if chars_eq_str(&name, "/config") && ws.len() == 2 && chars_eq_str(
        &lower_chars(&ws[1]),
        "show",
    ) {
        Command::ConfigShow
    } else if chars_eq_str(&name, "/clear") && bare {
        Command::Clear
    } else if chars_eq_str(&name, "/new") && bare {
        Command::New
    } else if (chars_eq_str(&name, "/exit") || chars_eq_str(&name, "/quit")) && bare {
        Command::Exit
    } else {
        Command::Unknown(string_of(&t))
    }
}

/// The help listing of the local commands.
pub open spec fn help_message() -> Seq<char> {
    "Comandos de Typhon:\n\
  /help, /?       Muestra esta ayuda\n\
  /status         Muestra el estado de la sesión\n\
  /tools          Lista las herramientas disponibles\n\
  /config         Abre el editor interactivo de configuración\n\
  /config show    Muestra la configuración actual\n\
  /clear          Limpia la pantalla\n\
  /new            Inicia una conversación nueva\n\
  /exit, /quit    Sale de Typhon\n\
  //texto         Envía literalmente un prompt que empieza por /"@
}

/// The help listing of the local commands.
pub fn help_text() -> (r: &'static str)
    ensures
        r@ == help_message(),
{
    "Comandos de Typhon:\n\
  /help, /?       Muestra esta ayuda\n\
  /status         Muestra el estado de la sesión\n\
  /tools          Lista las herramientas disponibles\n\
  /config         Abre el editor interactivo de configuración\n\
  /config show    Muestra la configuración actual\n\
  /clear          Limpia la pantalla\n\
  /new            Inicia una conversación nueva\n\
  /exit, /quit    Sale de Typhon\n\
  //texto         Envía literalmente un prompt que empieza por /"
}

/// The list of tools that the agent may call.
pub open spec fn tools_message() -> Seq<char> {
    "Herramientas disponibles:\n  crear_archivo     Crea un archivo de texto en el disco\n  leer_archivo      Lee el contenido de un archivo\n  listar_directorio Lista archivos y subdirectorios"@
}

/// The list of tools that the agent may call.
pub fn tools_text() -> (r: &'static str)
    ensures
        r@ == tools_message(),
{
    "Herramientas disponibles:\n  crear_archivo     Crea un archivo de texto en el disco\n  leer_archivo      Lee el contenido de un archivo\n  listar_directorio Lista archivos y subdirectorios"
}

/// The answer to an unknown command.
pub open spec fn unknown_message(command: Seq<char>) -> Seq<char> {
    "Comando desconocido: '"@ + command
        + "'. Escribe /help para ver los comandos disponibles."@
}

/// The answer to an unknown command, quoting it.
pub fn unknown_text(command: &str) -> (r: String)
    ensures
        r@ == unknown_message(command@),
{
    let mut s = String::new();
    push_str(&mut s, "Comando desconocido: '");
    push_str(&mut s, command);
    push_str(&mut s, "'. Escribe /help para ver los comandos disponibles.");
    s
}

/// Non-sensitive facts about the session shown by `/status` and `/config`.
/// The temperature is held as shown, with two decimals.
#[derive(Debug, Clone)]
pub struct SessionInfo {
    pub provider: String,
    pub model: String,
    pub temperature: String,
    pub reasoning_effort: Option<ReasoningEffort>,
    pub max_turns: u32,
    pub current_dir: String,
    pub config_path: String,
    pub prompt_path: String,
    pub verbose: bool,
}

impl SessionInfo {
    /// Gathers the facts of a session.
    pub fn from_paths(
        provider: String,
        model: String,
        temperature: String,
        reasoning_effort: Option<ReasoningEffort>,
        max_turns: u32,
        current_dir: String,
        config_path: String,
        prompt_path: String,
        verbose: bool,
    ) -> (r: SessionInfo)
        ensures
            r.provider@ == provider@,
            r.model@ == model@,
            r.temperature@ == temperature@,
            r.reasoning_effort == reasoning_effort,
            r.max_turns == max_turns,
            r.current_dir@ == current_dir@,
            r.config_path@ == config_path@,
            r.prompt_path@ == prompt_path@,
            r.verbose == verbose,
    {
        SessionInfo {
            provider,
            model,
            temperature,
            reasoning_effort,
            max_turns,
            current_dir,
            config_path,
            prompt_path,
            verbose,
        }
    }

    /// Replaces the facts that a new configuration changes; the turn limit
    /// and the working directory stay.
    pub fn update(
        &mut self,
        provider: String,
        model: String,
        temperature: String,
        reasoning_effort: Option<ReasoningEffort>,
        verbose: bool,
        config_path: String,
        prompt_path: String,
    )
        ensures
            final(self).provider@ == provider@,
            final(self).model@ == model@,
            final(self).temperature@ == temperature@,
            final(self).reasoning_effort == reasoning_effort,
            final(self).verbose == verbose,
            final(self).config_path@ == config_path@,
            final(self).prompt_path@ == prompt_path@,
            final(self).max_turns == old(self).max_turns,
            final(self).current_dir == old(self).current_dir,
    {
        self.provider = provider;
        self.model = model;
        self.temperature = temperature;
        self.reasoning_effort = reasoning_effort;
        self.verbose = verbose;
        self.config_path = config_path;
        self.prompt_path = prompt_path;
    }
}

/// The text of `/status`.
pub open spec fn status_message(info: SessionInfo, u: Usage) -> Seq<char> {
    "Estado de Typhon:\n  Proveedor: "@ + info.provider@ + "\n  Modelo: "@ + info.model@
        + "\n  Temperatura: "@ + info.temperature@ + "\n  Razonamiento: "@
        + optional_effort_label(info.reasoning_effort) + "\n  Máximo de turnos: "@ + decimal(
        info.max_turns as nat,
    ) + "\n  Directorio: "@ + info.current_dir@ + "\n  Consumo de la conversación: "@
        + usage_line(u)
}

/// The text of `/status`: provider, model, temperature, reasoning level, turn
/// limit, working directory and the conversation's token usage.
pub fn status_text(info: &SessionInfo, session_usage: &Usage) -> (r: String)
    ensures
        r@ == status_message(*info, *session_usage),
{
    let mut s = String::new();
    push_str(&mut s, "Estado de Typhon:\n  Proveedor: ");
    push_str(&mut s, info.provider.as_str());
    push_str(&mut s, "\n  Modelo: ");
    push_str(&mut s, info.model.as_str());
    push_str(&mut s, "\n  Temperatura: ");
    push_str(&mut s, info.temperature.as_str());
    push_str(&mut s, "\n  Razonamiento: ");
    let effort = crate::reasoning::format_reasoning_effort(info.reasoning_effort);
    push_str(&mut s, effort.as_str());
    push_str(&mut s, "\n  Máximo de turnos: ");
    push_decimal(&mut s, info.max_turns as u64);
    push_str(&mut s, "\n  Directorio: ");
    push_str(&mut s, info.current_dir.as_str());
    push_str(&mut s, "\n  Consumo de la conversación: ");
    let usage = session_usage_text(session_usage);
    push_str(&mut s, usage.as_str());
    proof {
        assert(s@ =~= status_message(*info, *session_usage));
    }
    s
}

/// The text of `/config show`.
pub open spec fn config_message(info: SessionInfo) -> Seq<char> {
    "Configuración activa:\n  Archivo de configuración: "@ + info.config_path@
        + "\n  System prompt: "@ + info.prompt_path@ + "\n  Proveedor: "@ + info.provider@
        + "\n  Modelo: "@ + info.model@ + "\n  Temperatura: "@ + info.temperature@
        + "\n  Razonamiento: "@ + optional_effort_label(info.reasoning_effort) + "\n  Verbose: "@
        + if info.verbose {
        "activado"@
    } else {
        "desactivado"@
    }
}

/// The text of `/config show`: files, provider, model, temperature,
/// reasoning level and verbosity.
pub fn config_text(info: &SessionInfo) -> (r: String)
    ensures
        r@ == config_message(*info),
{
    let mut s = String::new();
    push_str(&mut s, "Configuración activa:\n  Archivo de configuración: ");
    push_str(&mut s, info.config_path.as_str());
    push_str(&mut s, "\n  System prompt: ");
    push_str(&mut s, info.prompt_path.as_str());
    push_str(&mut s, "\n  Proveedor: ");
    push_str(&mut s, info.provider.as_str());
    push_str(&mut s, "\n  Modelo: ");
    push_str(&mut s, info.model.as_str());
    push_str(&mut s, "\n  Temperatura: ");
    push_str(&mut s, info.temperature.as_str());
    push_str(&mut s, "\n  Razonamiento: ");
    let effort = crate::reasoning::format_reasoning_effort(info.reasoning_effort);
    push_str(&mut s, effort.as_str());
    push_str(&mut s, "\n  Verbose: ");
    if info.verbose {
        push_str(&mut s, "activado");
    } else {
        push_str(&mut s, "desactivado");
    }
    proof {
        assert(s@ =~= config_message(*info));
    }
    s
}

/// A line that does not start with `/` once trimmed always goes to the
/// model, trimmed.
pub proof fn law_plain_lines_are_messages(s: Seq<char>, c: Command)
    requires
        parse_result(s, c),
        !(trim(s).len() > 0 && trim(s)[0] == '/'),
    ensures
        c matches Command::Message(m) && m@ == trim(s),
{
}

/// A line that starts with `//` goes to the model as typed, minus the first `/`.
pub proof fn law_double_slash_escapes(s: Seq<char>, c: Command)
    requires
        parse_result(s, c),
        trim(s).len() >= 2,
        trim(s)[0] == '/',
        trim(s)[1] == '/',
    ensures
        c matches Command::Message(m) && m@ == trim(s).skip(1),
{
}

/// Whatever line is typed, a command that is not a message and not unknown
/// comes from a line that starts with `/` but not `//`; a message never
/// reaches the model with surrounding whitespace.
pub proof fn law_commands_come_from_slash_lines(s: Seq<char>, c: Command)
    requires
        parse_result(s, c),
        !(c is Message),
        !(c is Unknown),
    ensures
        trim(s).len() > 0,
        trim(s)[0] == '/',
        !(trim(s).len() >= 2 && trim(s)[1] == '/'),
{
}

proof fn lemma_same_lower_char(x: char, y: char)
    requires
        ascii_lower(x) == ascii_lower(y),
    ensures
        is_space(x) <==> is_space(y),
        x == '/' <==> y == '/',
{
    if 'A' <= x && x <= 'Z' {
        assert(('a' as u32) <= (ascii_lower(x) as u32) <= ('z' as u32));
    }
    if 'A' <= y && y <= 'Z' {
        assert(('a' as u32) <= (ascii_lower(y) as u32) <= ('z' as u32));
    }
}

proof fn lemma_lower_parts(a: Seq<char>, b: Seq<char>)
    requires
        lower(a) == lower(b),
    ensures
        a.len() == b.len(),
        forall|i: int| 0 <= i < a.len() ==> ascii_lower(#[trigger] a[i]) == ascii_lower(b[i]),
        a.len() > 0 ==> lower(a.drop_first()) == lower(b.drop_first()),
        a.len() > 0 ==> lower(a.drop_last()) == lower(b.drop_last()),
        forall|n: int| 0 <= n <= a.len() ==> lower(#[trigger] a.skip(n)) == lower(b.skip(n)),
{
    assert(lower(a).len() == a.len());
    assert(lower(b).len() == b.len());
    assert forall|i: int| 0 <= i < a.len() implies ascii_lower(#[trigger] a[i]) == ascii_lower(
        b[i],
    ) by {
        assert(lower(a)[i] == ascii_lower(a[i]));
        assert(lower(b)[i] == ascii_lower(b[i]));
        assert(lower(a)[i] == lower(b)[i]);
    }
    if a.len() > 0 {
        assert(lower(a.drop_first()) =~= lower(b.drop_first()));
        assert(lower(a.drop_last()) =~= lower(b.drop_last()));
    }
    assert forall|n: int| 0 <= n <= a.len() implies lower(#[trigger] a.skip(n)) == lower(
        b.skip(n),
    ) by {
        assert(lower(a.skip(n)) =~= lower(b.skip(n)));
    }
}

proof fn lemma_lower_trim_start(a: Seq<char>, b: Seq<char>)
    requires
        lower(a) == lower(b),
    ensures
        lower(trim_start(a)) == lower(trim_start(b)),
    decreases a.len(),
{
    lemma_lower_parts(a, b);
    if a.len() > 0 {
        lemma_same_lower_char(a[0], b[0]);
        if is_space(a[0]) {
            lemma_lower_trim_start(a.drop_first(), b.drop_first());
        }
    }
}

proof fn lemma_lower_trim_end(a: Seq<char>, b: Seq<char>)
    requires
        lower(a) == lower(b),
    ensures
        lower(trim_end(a)) == lower(trim_end(b)),
    decreases a.len(),
{
    lemma_lower_parts(a, b);
    if a.len() > 0 {
        lemma_same_lower_char(a.last(), b.last());
        if is_space(a.last()) {
            lemma_lower_trim_end(a.drop_last(), b.drop_last());
        }
    }
}

proof fn lemma_lower_leading_word(a: Seq<char>, b: Seq<char>)
    requires
        lower(a) == lower(b),
    ensures
        lower(leading_word(a)) == lower(leading_word(b)),
    decreases a.len(),
{
    lemma_lower_parts(a, b);
    if a.len() > 0 {
        lemma_same_lower_char(a[0], b[0]);
        if !is_space(a[0]) {
            lemma_lower_leading_word(a.drop_first(), b.drop_first());
            let x = leading_word(a.drop_first());
            let y = leading_word(b.drop_first());
            assert(lower(seq![a[0]] + x) =~= seq![ascii_lower(a[0])] + lower(x));
            assert(lower(seq![b[0]] + y) =~= seq![ascii_lower(b[0])] + lower(y));
        } else {
            assert(lower(leading_word(a)) =~= lower(leading_word(b)));
        }
    } else {
        assert(lower(leading_word(a)) =~= lower(leading_word(b)));
    }
}

proof fn lemma_lower_words(a: Seq<char>, b: Seq<char>)
    requires
        lower(a) == lower(b),
    ensures
        words(a).len() == words(b).len(),
        forall|k: int| 0 <= k < words(a).len() ==> lower(#[trigger] words(a)[k]) == lower(
            words(b)[k],
        ),
    decreases a.len(),
{
    lemma_lower_parts(a, b);
    lemma_lower_trim_start(a, b);
    let t = trim_start(a);
    let u = trim_start(b);
    lemma_lower_parts(t, u);
    if t.len() > 0 {
        lemma_lower_leading_word(t, u);
        let w = leading_word(t);
        let v = leading_word(u);
        lemma_lower_parts(w, v);
        if 0 < w.len() <= t.len() && t.len() <= a.len() {
            lemma_lower_words(t.skip(w.len() as int), u.skip(v.len() as int));
            let ra = words(t.skip(w.len() as int));
            let rb = words(u.skip(v.len() as int));
            assert forall|k: int| 0 <= k < words(a).len() implies lower(#[trigger] words(a)[k])
                == lower(words(b)[k]) by {
                if k > 0 {
                    assert(words(a)[k] == ra[k - 1]);
                    assert(words(b)[k] == rb[k - 1]);
                }
            }
        }
    }
}

/// Local commands do not depend on letter case: a line that names a local
/// command names the same one with any of its ASCII letters in the other
/// case (the command word, and `show` after `/config`, alike).
pub proof fn law_commands_ignore_ascii_case(s1: Seq<char>, s2: Seq<char>, c1: Command, c2: Command)
    requires
        parse_result(s1, c1),
        parse_result(s2, c2),
        lower(s1) == lower(s2),
        !(c1 is Message),
        !(c1 is Unknown),
    ensures
        c2 == c1,
{
    lemma_lower_trim_start(s1, s2);
    lemma_lower_trim_end(trim_start(s1), trim_start(s2));
    let t1 = trim(s1);
    let t2 = trim(s2);
    lemma_lower_parts(t1, t2);
    law_commands_come_from_slash_lines(s1, c1);
    lemma_same_lower_char(t1[0], t2[0]);
    if t1.len() >= 2 {
        lemma_same_lower_char(t1[1], t2[1]);
    }
    lemma_first_word(t1);
    lemma_first_word(t2);
    lemma_lower_words(t1, t2);
}

/// The status text begins by naming the session's provider and then its
/// model, each after its label.
pub proof fn law_status_names_provider_then_model(info: SessionInfo, u: Usage)
    ensures
        ({
            let head = "Estado de Typhon:\n  Proveedor: "@ + info.provider@ + "\n  Modelo: "@
                + info.model@;
            status_message(info, u).len() >= head.len() && status_message(info, u).take(
                head.len() as int,
            ) == head
        }),
{
    let head = "Estado de Typhon:\n  Proveedor: "@ + info.provider@ + "\n  Modelo: "@
        + info.model@;
    let rest = status_message(info, u).skip(head.len() as int);
    assert(status_message(info, u) =~= head + rest);
    assert((head + rest).take(head.len() as int) =~= head);
}

} // verus!
