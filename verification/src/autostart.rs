//! Starting together with the system.
//!
//! The preference is what is wanted, and an entry of the registry is what is so.
//! They may come apart, and the start of the app brings them together.

use vstd::prelude::*;

use crate::outside::{lossy_text, utf8_lossy};
use crate::text::{copy_text, lemma_texts_push, texts, trim, trimmed};

verus! {

/// What a run of the registry tool gave.
#[derive(Debug)]
pub struct ToolRun {
    pub success: bool,
    /// What it wrote where errors go.
    pub stderr: Vec<u8>,
}

/// Where the system looks for what to open when somebody logs in.
pub open spec fn run_key() -> Seq<char> {
    "HKCU\\Software\\Microsoft\\Windows\\CurrentVersion\\Run"@
}

fn push_all(list: &mut Vec<String>, words: &[&'static str])
    ensures
        texts(final(list)@) == texts(old(list)@) + words@.map_values(|word: &'static str| word@),
{
    let ghost start = texts(list@);
    let mut i: usize = 0;
    proof {
        assert(start + words@.take(0).map_values(|word: &'static str| word@) =~= start);
    }
    while i < words.len()
        invariant
            i <= words.len(),
            start == texts(old(list)@),
            texts(list@) == start + words@.take(i as int).map_values(|word: &'static str| word@),
        decreases words.len() - i,
    {
        let word = copy_text(words[i]);
        proof {
            lemma_texts_push(list@, word);
            assert(words@.take(i + 1).map_values(|word: &'static str| word@) =~= words@.take(
                i as int,
            ).map_values(|word: &'static str| word@).push(word@));
        }
        list.push(word);
        proof {
            assert(texts(list@) =~= start + words@.take(i + 1).map_values(
                |word: &'static str| word@,
            ));
        }
        i = i + 1;
    }
    proof {
        assert(words@.take(words@.len() as int) =~= words@);
    }
}

/// The arguments that ask the tool whether the entry is there.
pub fn query_arguments() -> (arguments: Vec<String>)
    ensures
        texts(arguments@) == seq!["query"@, run_key(), "/v"@, "Vox"@],
        texts(arguments@)[1] == "HKCU\\Software\\Microsoft\\Windows\\CurrentVersion\\Run"@,
{
    let mut list: Vec<String> = Vec::new();
    let words = ["query", "HKCU\\Software\\Microsoft\\Windows\\CurrentVersion\\Run", "/v", "Vox"];
    push_all(&mut list, &words);
    proof {
        assert(texts(list@) =~= seq!["query"@, run_key(), "/v"@, "Vox"@]);
    }
    list
}

/// The arguments that have the tool delete the entry.
pub fn delete_arguments() -> (arguments: Vec<String>)
    ensures
        texts(arguments@) == seq!["delete"@, run_key(), "/v"@, "Vox"@, "/f"@],
        texts(arguments@)[1] == "HKCU\\Software\\Microsoft\\Windows\\CurrentVersion\\Run"@,
{
    let mut list: Vec<String> = Vec::new();
    let words = [
        "delete",
        "HKCU\\Software\\Microsoft\\Windows\\CurrentVersion\\Run",
        "/v",
        "Vox",
        "/f",
    ];
    push_all(&mut list, &words);
    proof {
        assert(texts(list@) =~= seq!["delete"@, run_key(), "/v"@, "Vox"@, "/f"@]);
    }
    list
}

/// The arguments that have the tool write the entry. The path goes between quotes:
/// it almost always has a space in it.
pub fn add_arguments(executable: &str) -> (arguments: Vec<String>)
    ensures
        texts(arguments@) == seq![
            "add"@,
            run_key(),
            "/v"@,
            "Vox"@,
            "/t"@,
            "REG_SZ"@,
            "/d"@,
            "\""@ + executable@ + "\""@,
            "/f"@,
        ],
        texts(arguments@)[1] == "HKCU\\Software\\Microsoft\\Windows\\CurrentVersion\\Run"@,
{
    let mut list: Vec<String> = Vec::new();
    let words = [
        "add",
        "HKCU\\Software\\Microsoft\\Windows\\CurrentVersion\\Run",
        "/v",
        "Vox",
        "/t",
        "REG_SZ",
        "/d",
    ];
    push_all(&mut list, &words);
    let mut line = copy_text("\"");
    line.append(executable);
    line.append("\"");
    let force = copy_text("/f");
    let ghost seven = list@;
    proof {
        lemma_texts_push(seven, line);
        lemma_texts_push(seven.push(line), force);
    }
    list.push(line);
    list.push(force);
    proof {
        assert(texts(list@) =~= seq![
            "add"@,
            run_key(),
            "/v"@,
            "Vox"@,
            "/t"@,
            "REG_SZ"@,
            "/d"@,
            "\""@ + executable@ + "\""@,
            "/f"@,
        ]);
    }
    list
}

/// Is the entry there? It is not where the tool could not even be run.
pub fn is_enabled(query: &Option<ToolRun>) -> (enabled: bool)
    ensures
        enabled == (query matches Some(run) && run.success),
{
    match query {
        Some(run) => run.success,
        None => false,
    }
}

/// What comes of changing the entry, given how what the tool wrote reads. To
/// delete what is not there is an error of the tool and none of ours: it was
/// asked that the app should not start, and it does not.
pub open spec fn change_outcome(
    enabled: bool,
    success: bool,
    still_there: bool,
    written: Seq<char>,
) -> Option<Seq<char>> {
    if success || (!enabled && !still_there) {
        None
    } else {
        Some(trim(written))
    }
}

/// What comes of changing the entry, given how what the tool wrote reads.
pub fn set_given(enabled: bool, success: bool, still_there: bool, written: &str) -> (outcome:
    Result<(), String>)
    ensures
        match outcome {
            Ok(()) => change_outcome(enabled, success, still_there, written@) is None,
            Err(reason) => change_outcome(enabled, success, still_there, written@) == Some(
                reason@,
            ),
        },
        outcome is Ok <==> success || (!enabled && !still_there),
        outcome matches Err(reason) ==> reason@ == trim(written@),
{
    if success || (!enabled && !still_there) {
        Ok(())
    } else {
        Err(trimmed(written))
    }
}

/// What comes of changing the entry: `still_there` tells whether it is there after
/// an attempt to delete it. Where the tool could not be run, that is the reason.
pub fn set(enabled: bool, run: &Result<ToolRun, String>, still_there: bool) -> (outcome: Result<
    (),
    String,
>)
    ensures
        match run {
            Ok(done) => {
                let expected = change_outcome(
                    enabled,
                    done.success,
                    still_there,
                    utf8_lossy(done.stderr@),
                );
                match outcome {
                    Ok(()) => expected is None,
                    Err(reason) => expected == Some(reason@),
                }
            },
            Err(why) => outcome is Err && outcome->Err_0@ == "chamar o reg.exe: "@ + why@,
        },
{
    match run {
        Ok(done) => {
            let written = lossy_text(done.stderr.as_slice());
            set_given(enabled, done.success, still_there, written.as_str())
        },
        Err(why) => {
            let mut reason = copy_text("chamar o reg.exe: ");
            reason.append(why.as_str());
            Err(reason)
        },
    }
}

/// What the entry has to be changed to, for it to say what is wanted.
pub open spec fn change_for(desejado: bool, enabled: bool) -> Option<bool> {
    if enabled == desejado {
        None
    } else {
        Some(desejado)
    }
}

/// What the entry has to be changed to, for it to say what is wanted; nothing where
/// it says so already.
pub fn sync(desejado: bool, enabled: bool) -> (change: Option<bool>)
    ensures
        change == change_for(desejado, enabled),
        change is Some <==> enabled != desejado,
        change matches Some(changed) ==> changed == desejado,
{
    if enabled == desejado {
        None
    } else {
        Some(desejado)
    }
}

/// Once the change is made, there is nothing left to change.
pub proof fn law_sync_settles(desejado: bool, enabled: bool)
    ensures
        ({
            let after = match change_for(desejado, enabled) {
                Some(changed) => changed,
                None => enabled,
            };
            after == desejado && change_for(desejado, after) is None
        }),
{
}

/// Asking not to start is met where the entry is gone, whatever the tool says.
pub proof fn law_gone_is_gone(success: bool, written: Seq<char>)
    ensures
        change_outcome(false, success, false, written) is None,
{
}

} // verus!
