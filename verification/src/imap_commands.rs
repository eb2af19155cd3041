//! The IMAP commands the raw client sends, each a tagged line ending in CRLF.
use vstd::prelude::*;
use crate::text::{
    chars_of, decimal, decimal_exec, extend_chars, extend_str, replace_char, replace_char_exec, string_of,
};
use crate::compose::{join_strings, join_text, strings};

verus! {

/// A command of the raw IMAP client.
#[allow(inconsistent_fields)]
pub enum ImapCommand {
    /// `LOGIN` with the user name and password as quoted strings.
    Login { username: String, password: String },
    /// `AUTHENTICATE XOAUTH2` with the base64 initial response.
    AuthenticateXOAuth2 { encoded: String },
    Select { folder: String },
    /// `FETCH` of headers, flags, envelope and body structure by sequence numbers.
    FetchHeaders { range: String },
    /// The same by UIDs.
    UidFetchHeaders { range: String },
    /// `UID FETCH` of the flags alone.
    UidFetchFlags { range: String },
    /// `UID FETCH` of a whole message without marking it read.
    UidFetchBody { uid: u32 },
    /// `LIST "" "*"`.
    List,
    /// `STATUS` with the message and unseen counts.
    Status { folder: String },
    Noop,
    /// `APPEND` announcing a literal of `size` bytes, with optional flags.
    Append { folder: String, flags: Vec<String>, size: usize },
    /// `UID STORE` adding (`+FLAGS`) or removing (`-FLAGS`) flags.
    UidStore { uid: u32, flags: String, add: bool },
    UidCopy { uid: u32, dest_folder: String },
    Expunge,
    UidExpunge { uid: u32 },
    /// `STORE 1:* +FLAGS (\Deleted)`: marks every message of the folder.
    StoreAllDeleted,
    Create { folder: String },
    Rename { from: String, to: String },
    Delete { folder: String },
    Idle,
    Logout,
}

/// A string made safe inside a quoted IMAP string: backslashes doubled,
/// then double quotes escaped.
pub open spec fn login_quoted(s: Seq<char>) -> Seq<char> {
    replace_char(replace_char(s, '\\', "\\\\"@), '"', "\\\""@)
}

/// `"` + text + `"`.
pub open spec fn quoted(s: Seq<char>) -> Seq<char> {
    seq!['"'] + s + seq!['"']
}

/// The line sent for a command, without its tag and CRLF.
pub open spec fn command_body(c: ImapCommand) -> Seq<char> {
    match c {
        ImapCommand::Login { username, password } => "LOGIN "@ + quoted(login_quoted(username@)) + seq![' ']
            + quoted(login_quoted(password@)),
        ImapCommand::AuthenticateXOAuth2 { encoded } => "AUTHENTICATE XOAUTH2 "@ + encoded@,
        ImapCommand::Select { folder } => "SELECT "@ + quoted(folder@),
        ImapCommand::FetchHeaders { range } => "FETCH "@ + range@ + " (UID FLAGS ENVELOPE BODYSTRUCTURE)"@,
        ImapCommand::UidFetchHeaders { range } => "UID FETCH "@ + range@ + " (UID FLAGS ENVELOPE BODYSTRUCTURE)"@,
        ImapCommand::UidFetchFlags { range } => "UID FETCH "@ + range@ + " (UID FLAGS)"@,
        ImapCommand::UidFetchBody { uid } => "UID FETCH "@ + decimal(uid as nat) + " BODY.PEEK[]"@,
        ImapCommand::List => "LIST \"\" \"*\""@,
        ImapCommand::Status { folder } => "STATUS "@ + quoted(folder@) + " (MESSAGES UNSEEN)"@,
        ImapCommand::Noop => "NOOP"@,
        ImapCommand::Append { folder, flags, size } => "APPEND "@ + quoted(folder@)
            + (if flags@.len() == 0 { Seq::empty() } else { " ("@ + join_text(strings(flags@), " "@) + seq![')'] })
            + " {"@ + decimal(size as nat) + seq!['}'],
        ImapCommand::UidStore { uid, flags, add } => "UID STORE "@ + decimal(uid as nat) + seq![' ']
            + (if add { seq!['+'] } else { seq!['-'] }) + "FLAGS ("@ + flags@ + seq![')'],
        ImapCommand::UidCopy { uid, dest_folder } => "UID COPY "@ + decimal(uid as nat) + seq![' '] + quoted(dest_folder@),
        ImapCommand::Expunge => "EXPUNGE"@,
        ImapCommand::UidExpunge { uid } => "UID EXPUNGE "@ + decimal(uid as nat),
        ImapCommand::StoreAllDeleted => "STORE 1:* +FLAGS (\\Deleted)"@,
        ImapCommand::Create { folder } => "CREATE "@ + quoted(folder@),
        ImapCommand::Rename { from, to } => "RENAME "@ + quoted(from@) + seq![' '] + quoted(to@),
        ImapCommand::Delete { folder } => "DELETE "@ + quoted(folder@),
        ImapCommand::Idle => "IDLE"@,
        ImapCommand::Logout => "LOGOUT"@,
    }
}

/// The full line sent for a command: tag, space, command, CRLF.
pub open spec fn command_line_text(tag: Seq<char>, c: ImapCommand) -> Seq<char> {
    tag + seq![' '] + command_body(c) + "\r\n"@
}

fn push_quoted(v: &mut Vec<char>, s: &str)
    ensures
        final(v)@ == old(v)@ + quoted(s@),
{
    v.push('"');
    extend_str(v, s);
    v.push('"');
    proof {
        assert(final(v)@ =~= old(v)@ + quoted(s@));
    }
}

fn login_quote_exec(s: &str) -> (r: Vec<char>)
    ensures
        r@ == login_quoted(s@),
{
    let c = chars_of(s);
    let a = replace_char_exec(&c, '\\', "\\\\");
    replace_char_exec(&a, '"', "\\\"")
}

/// The line to send for a command with this tag.
pub fn command_line(tag: &str, cmd: &ImapCommand) -> (r: String)
    ensures
        r@ == command_line_text(tag@, *cmd),
{
    let mut v: Vec<char> = Vec::new();
    extend_str(&mut v, tag);
    v.push(' ');
    let ghost head = v@;
    match cmd {
        ImapCommand::Login { username, password } => {
            extend_str(&mut v, "LOGIN ");
            let u = login_quote_exec(username.as_str());
            let us = string_of(&u);
            push_quoted(&mut v, us.as_str());
            v.push(' ');
            let p = login_quote_exec(password.as_str());
            let ps = string_of(&p);
            push_quoted(&mut v, ps.as_str());
        },
        ImapCommand::AuthenticateXOAuth2 { encoded } => {
            extend_str(&mut v, "AUTHENTICATE XOAUTH2 ");
            extend_str(&mut v, encoded.as_str());
        },
        ImapCommand::Select { folder } => {
            extend_str(&mut v, "SELECT ");
            push_quoted(&mut v, folder.as_str());
        },
        ImapCommand::FetchHeaders { range } => {
            extend_str(&mut v, "FETCH ");
            extend_str(&mut v, range.as_str());
            extend_str(&mut v, " (UID FLAGS ENVELOPE BODYSTRUCTURE)");
        },
        ImapCommand::UidFetchHeaders { range } => {
            extend_str(&mut v, "UID FETCH ");
            extend_str(&mut v, range.as_str());
            extend_str(&mut v, " (UID FLAGS ENVELOPE BODYSTRUCTURE)");
        },
        ImapCommand::UidFetchFlags { range } => {
            extend_str(&mut v, "UID FETCH ");
            extend_str(&mut v, range.as_str());
            extend_str(&mut v, " (UID FLAGS)");
        },
        ImapCommand::UidFetchBody { uid } => {
            extend_str(&mut v, "UID FETCH ");
            let d = decimal_exec(*uid as u64);
            extend_chars(&mut v, &d);
            extend_str(&mut v, " BODY.PEEK[]");
        },
        ImapCommand::List => {
            extend_str(&mut v, "LIST \"\" \"*\"");
        },
        ImapCommand::Status { folder } => {
            extend_str(&mut v, "STATUS ");
            push_quoted(&mut v, folder.as_str());
            extend_str(&mut v, " (MESSAGES UNSEEN)");
        },
        ImapCommand::Noop => {
            extend_str(&mut v, "NOOP");
        },
        ImapCommand::Append { folder, flags, size } => {
            extend_str(&mut v, "APPEND ");
            push_quoted(&mut v, folder.as_str());
            let ghost mid = v@;
            if flags.len() > 0 {
                extend_str(&mut v, " (");
                let j = join_strings(flags, " ");
                extend_chars(&mut v, &j);
                v.push(')');
            }
            proof {
                reveal_strlit("");
                if flags@.len() > 0 {
                    assert(v@ =~= mid + (" ("@ + join_text(strings(flags@), " "@) + seq![')']));
                } else {
                    assert(v@ =~= mid + Seq::<char>::empty());
                }
            }
            extend_str(&mut v, " {");
            let d = decimal_exec(*size as u64);
            extend_chars(&mut v, &d);
            v.push('}');
        },
        ImapCommand::UidStore { uid, flags, add } => {
            extend_str(&mut v, "UID STORE ");
            let d = decimal_exec(*uid as u64);
            extend_chars(&mut v, &d);
            v.push(' ');
            v.push(if *add { '+' } else { '-' });
            extend_str(&mut v, "FLAGS (");
            extend_str(&mut v, flags.as_str());
            v.push(')');
        },
        ImapCommand::UidCopy { uid, dest_folder } => {
            extend_str(&mut v, "UID COPY ");
            let d = decimal_exec(*uid as u64);
            extend_chars(&mut v, &d);
            v.push(' ');
            push_quoted(&mut v, dest_folder.as_str());
        },
        ImapCommand::Expunge => {
            extend_str(&mut v, "EXPUNGE");
        },
        ImapCommand::UidExpunge { uid } => {
            extend_str(&mut v, "UID EXPUNGE ");
            let d = decimal_exec(*uid as u64);
            extend_chars(&mut v, &d);
        },
        ImapCommand::StoreAllDeleted => {
            extend_str(&mut v, "STORE 1:* +FLAGS (\\Deleted)");
        },
        ImapCommand::Create { folder } => {
            extend_str(&mut v, "CREATE ");
            push_quoted(&mut v, folder.as_str());
        },
        ImapCommand::Rename { from, to } => {
            extend_str(&mut v, "RENAME ");
            push_quoted(&mut v, from.as_str());
            v.push(' ');
            push_quoted(&mut v, to.as_str());
        },
        ImapCommand::Delete { folder } => {
            extend_str(&mut v, "DELETE ");
            push_quoted(&mut v, folder.as_str());
        },
        ImapCommand::Idle => {
            extend_str(&mut v, "IDLE");
        },
        ImapCommand::Logout => {
            extend_str(&mut v, "LOGOUT");
        },
    }
    proof {
        assert(v@ =~= head + command_body(*cmd));
    }
    extend_str(&mut v, "\r\n");
    string_of(&v)
}

// ───────────────────────── quoting reads back ─────────────────────────

/// What the escaping does to one character.
pub open spec fn escape_char(c: char) -> Seq<char> {
    if c == '\\' { seq!['\\', '\\'] } else if c == '"' { seq!['\\', '"'] } else { seq![c] }
}

/// A quoted string's content read back: a backslash takes the next
/// character literally.
pub open spec fn unescaped(t: Seq<char>) -> Seq<char>
    decreases t.len(),
{
    if t.len() == 0 {
        t
    } else if t[0] == '\\' && t.len() >= 2 {
        seq![t[1]] + unescaped(t.skip(2))
    } else {
        seq![t[0]] + unescaped(t.drop_first())
    }
}

proof fn lemma_quoted_step(s: Seq<char>)
    requires
        s.len() > 0,
    ensures
        login_quoted(s) == escape_char(s[0]) + login_quoted(s.drop_first()),
{
    reveal_strlit("\\\\");
    reveal_strlit("\\\"");
    let a = replace_char(s, '\\', "\\\\"@);
    let head = if s[0] == '\\' { "\\\\"@ } else { seq![s[0]] };
    assert(a == head + replace_char(s.drop_first(), '\\', "\\\\"@));
    lemma_replace_concat(head, replace_char(s.drop_first(), '\\', "\\\\"@), '"', "\\\""@);
    let e = Seq::<char>::empty();
    assert(replace_char(e, '"', "\\\""@) == e);
    if s[0] == '\\' {
        assert(head =~= seq!['\\', '\\']);
        let one = seq!['\\'];
        assert(one.drop_first() =~= e);
        assert(replace_char(one, '"', "\\\""@) == seq!['\\'] + replace_char(e, '"', "\\\""@));
        assert(head.drop_first() =~= one);
        assert(replace_char(head, '"', "\\\""@) == seq!['\\'] + replace_char(one, '"', "\\\""@));
        assert(replace_char(head, '"', "\\\""@) =~= seq!['\\', '\\']);
    } else {
        assert(head =~= seq![s[0]]);
        assert(head.drop_first() =~= e);
        if s[0] == '"' {
            assert("\\\""@ =~= seq!['\\', '"']);
            assert(replace_char(head, '"', "\\\""@) == "\\\""@ + replace_char(e, '"', "\\\""@));
            assert(replace_char(head, '"', "\\\""@) =~= seq!['\\', '"']);
        } else {
            assert(replace_char(head, '"', "\\\""@) == seq![s[0]] + replace_char(e, '"', "\\\""@));
            assert(replace_char(head, '"', "\\\""@) =~= seq![s[0]]);
        }
    }
}

proof fn lemma_replace_concat(a: Seq<char>, b: Seq<char>, c: char, r: Seq<char>)
    ensures
        replace_char(a + b, c, r) == replace_char(a, c, r) + replace_char(b, c, r),
    decreases a.len(),
{
    if a.len() == 0 {
        assert(a + b =~= b);
    } else {
        lemma_replace_concat(a.drop_first(), b, c, r);
        assert((a + b).drop_first() =~= a.drop_first() + b);
        assert((a + b)[0] == a[0]);
    }
}

/// Quoting the credentials for `LOGIN` loses nothing: reading the quoted
/// text back, each backslash taking the next character, gives the credentials back.
pub proof fn law_login_quoting_reads_back(s: Seq<char>)
    ensures
        unescaped(login_quoted(s)) == s,
    decreases s.len(),
{
    if s.len() == 0 {
        assert(replace_char(s, '\\', "\\\\"@) =~= s);
        assert(replace_char(s, '"', "\\\""@) =~= s);
    } else {
        lemma_quoted_step(s);
        law_login_quoting_reads_back(s.drop_first());
        let t = login_quoted(s);
        let rest = login_quoted(s.drop_first());
        if s[0] == '\\' || s[0] == '"' {
            assert(t[0] == '\\');
            assert(t.skip(2) =~= rest);
            assert(t[1] == s[0]);
            assert(unescaped(t) =~= seq![s[0]] + s.drop_first());
        } else {
            assert(t.drop_first() =~= rest);
            assert(unescaped(t) =~= seq![s[0]] + s.drop_first());
        }
        assert(seq![s[0]] + s.drop_first() =~= s);
    }
}

} // verus!
