//! Reading test inputs: connexions written `USER IP PORT`, one per line, and
//! commands, one per line.

use vstd::prelude::*;
use crate::text::{i32_value, parse_i32, split_words, texts, words};
use crate::upsurge::connexion_info::ConnexionInfo;
use crate::cli::infos;

verus! {

/// A connexion record: at least three words, the third an `i32`.
pub open spec fn is_record(line: Seq<char>) -> bool {
    words(line).len() >= 3 && i32_value(words(line)[2]) is Some
}

/// The connexion that a record gives: user, address and port are its first three words.
pub open spec fn record_of(line: Seq<char>) -> (Seq<char>, Seq<char>, i32) {
    (words(line)[0], words(line)[1], i32_value(words(line)[2])->Some_0)
}

/// The connexion of a record line `USER IP PORT`.
pub fn connexion_record(line: &str) -> (r: ConnexionInfo)
    requires
        is_record(line@),
    ensures
        r@ == record_of(line@),
{
    let ws = split_words(line);
    assert(ws@[2]@ == words(line@)[2]);
    let port = match parse_i32(ws[2].as_str()) {
        Some(p) => p,
        None => 0,
    };
    ConnexionInfo::new(ws[0].clone(), ws[1].clone(), port)
}

/// The test inputs: the connexions of the record lines, in order, and the
/// command lines as they are.
pub fn load_inputs(connexion_lines: &Vec<String>, command_lines: Vec<String>) -> (r: (Vec<ConnexionInfo>, Vec<String>))
    requires
        forall|i: int| 0 <= i < connexion_lines@.len() ==> is_record(#[trigger] connexion_lines@[i]@),
    ensures
        infos(r.0@) == texts(connexion_lines@).map_values(|l: Seq<char>| record_of(l)),
        r.1@ == command_lines@,
{
    let mut connexions: Vec<ConnexionInfo> = Vec::new();
    let mut i: usize = 0;
    while i < connexion_lines.len()
        invariant
            i <= connexion_lines@.len(),
            forall|j: int| 0 <= j < connexion_lines@.len() ==> is_record(#[trigger] connexion_lines@[j]@),
            connexions@.len() == i,
            forall|j: int| 0 <= j < i ==> (#[trigger] connexions@[j])@ == record_of(connexion_lines@[j]@),
        decreases connexion_lines@.len() - i,
    {
        let con = connexion_record(connexion_lines[i].as_str());
        connexions.push(con);
        i = i + 1;
    }
    assert(infos(connexions@) =~= texts(connexion_lines@).map_values(|l: Seq<char>| record_of(l)));
    (connexions, command_lines)
}

} // verus!
