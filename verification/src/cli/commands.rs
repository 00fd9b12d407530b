//! The command language of the interactive calculator: each command has a
//! Chinese and an English spelling, and arguments are white-space separated.
use vstd::prelude::*;

use crate::text::{chars_of, float_text_spec, is_float_text, is_word, parse_u32, parse_u32_spec, split_whitespace, string_from_chars, views_of, words_spec};

verus! {

/// A command typed at the prompt.
#[derive(Debug)]
pub enum Command {
    /// `計算 <resource_id> <rate>`: solve the chain for a target rate per
    /// minute. The rate is kept as typed, and is always text that
    /// `str::parse::<f64>` accepts.
    Calculate { resource_id: String, rate_text: String },
    /// `平衡`: show the last balance sheet.
    Balance,
    /// `缺口`: analyse deficits.
    Gaps,
    /// `難度 [<key> <value>]`: show or change the difficulty.
    Difficulty(DifficultyCommand),
    /// `解鎖 <research_id>`.
    Unlock { research_id: String },
    /// `鎖定 <research_id>`.
    Lock { research_id: String },
    /// `解鎖列表`: list unlocked research.
    UnlockedList,
    /// `偏好 <resource_id> <recipe_id>`.
    Prefer { resource_id: String, recipe_id: String },
    /// `資源列表`.
    ListResources,
    /// `建築列表`.
    ListBuildings,
    /// `配方列表 [building_id]`.
    ListRecipes { building_id: Option<String> },
    /// `研究列表`.
    ListResearch,
    /// `人口 <count> [housing_tier]`.
    Population { count: u32, housing_tier: Option<u32> },
    /// `幫助`.
    Help,
    /// `離開`.
    Quit,
    /// Anything else, with the message to show (empty for a blank line).
    Unknown(String),
}

/// The two forms of the difficulty command.
#[derive(Debug)]
pub enum DifficultyCommand {
    Show,
    SetValue { key: String, value: String },
}

/// The message shown for a word that names no command.
pub open spec fn unknown_message(word: Seq<char>) -> Seq<char> {
    "未知指令: "@ + word
}

/// `c` is the command that the words `w` of a line spell.
pub open spec fn parses_to(w: Seq<Seq<char>>, c: Command) -> bool {
    if w.len() == 0 {
        c matches Command::Unknown(m) && m@ == Seq::<char>::empty()
    } else {
        let head = w[0];
        if head == "計算"@ || head == "calculate"@ || head == "calc"@ {
            if w.len() >= 3 && float_text_spec(w[2]) {
                c matches Command::Calculate { resource_id, rate_text } && resource_id@ == w[1]
                    && rate_text@ == w[2]
            } else {
                c matches Command::Unknown(m) && m@ == "用法: 計算 <resource_id> <rate>"@
            }
        } else if head == "平衡"@ || head == "balance"@ {
            c is Balance
        } else if head == "缺口"@ || head == "gaps"@ {
            c is Gaps
        } else if head == "難度"@ || head == "difficulty"@ {
            if w.len() >= 3 {
                c matches Command::Difficulty(DifficultyCommand::SetValue { key, value }) && key@ == w[1]
                    && value@ == w[2]
            } else {
                c matches Command::Difficulty(DifficultyCommand::Show)
            }
        } else if head == "解鎖"@ || head == "unlock"@ {
            if w.len() >= 2 {
                c matches Command::Unlock { research_id } && research_id@ == w[1]
            } else {
                c matches Command::Unknown(m) && m@ == "用法: 解鎖 <research_id>"@
            }
        } else if head == "鎖定"@ || head == "lock"@ {
            if w.len() >= 2 {
                c matches Command::Lock { research_id } && research_id@ == w[1]
            } else {
                c matches Command::Unknown(m) && m@ == "用法: 鎖定 <research_id>"@
            }
        } else if head == "解鎖列表"@ || head == "unlocked"@ {
            c is UnlockedList
        } else if head == "偏好"@ || head == "prefer"@ {
            if w.len() >= 3 {
                c matches Command::Prefer { resource_id, recipe_id } && resource_id@ == w[1]
                    && recipe_id@ == w[2]
            } else {
                c matches Command::Unknown(m) && m@ == "用法: 偏好 <resource_id> <recipe_id>"@
            }
        } else if head == "資源列表"@ || head == "resources"@ {
            c is ListResources
        } else if head == "建築列表"@ || head == "buildings"@ {
            c is ListBuildings
        } else if head == "配方列表"@ || head == "recipes"@ {
            c matches Command::ListRecipes { building_id } && if w.len() >= 2 {
                building_id matches Some(b) && b@ == w[1]
            } else {
                building_id is None
            }
        } else if head == "研究列表"@ || head == "research"@ {
            c is ListResearch
        } else if head == "人口"@ || head == "population"@ || head == "pop"@ {
            if w.len() >= 2 && parse_u32_spec(w[1]) is Some {
                c matches Command::Population { count, housing_tier } && count == parse_u32_spec(
                    w[1],
                )->0 && housing_tier == (if w.len() >= 3 {
                    parse_u32_spec(w[2])
                } else {
                    None
                })
            } else {
                c matches Command::Unknown(m) && m@ == "用法: 人口 <人數> [住宅等級]"@
            }
        } else if head == "幫助"@ || head == "help"@ || head == "?"@ {
            c is Help
        } else if head == "離開"@ || head == "quit"@ || head == "exit"@ || head == "q"@ {
            c is Quit
        } else {
            c matches Command::Unknown(m) && m@ == unknown_message(head)
        }
    }
}

/// The command words, character by character.
proof fn lemma_command_words_spelled()
    ensures
        "計算"@ == seq!['計', '算'],
        "calculate"@ == seq!['c', 'a', 'l', 'c', 'u', 'l', 'a', 't', 'e'],
        "calc"@ == seq!['c', 'a', 'l', 'c'],
        "平衡"@ == seq!['平', '衡'],
        "balance"@ == seq!['b', 'a', 'l', 'a', 'n', 'c', 'e'],
        "缺口"@ == seq!['缺', '口'],
        "gaps"@ == seq!['g', 'a', 'p', 's'],
        "難度"@ == seq!['難', '度'],
        "difficulty"@ == seq!['d', 'i', 'f', 'f', 'i', 'c', 'u', 'l', 't', 'y'],
        "解鎖"@ == seq!['解', '鎖'],
        "unlock"@ == seq!['u', 'n', 'l', 'o', 'c', 'k'],
        "鎖定"@ == seq!['鎖', '定'],
        "lock"@ == seq!['l', 'o', 'c', 'k'],
        "解鎖列表"@ == seq!['解', '鎖', '列', '表'],
        "unlocked"@ == seq!['u', 'n', 'l', 'o', 'c', 'k', 'e', 'd'],
        "偏好"@ == seq!['偏', '好'],
        "prefer"@ == seq!['p', 'r', 'e', 'f', 'e', 'r'],
        "資源列表"@ == seq!['資', '源', '列', '表'],
        "resources"@ == seq!['r', 'e', 's', 'o', 'u', 'r', 'c', 'e', 's'],
        "建築列表"@ == seq!['建', '築', '列', '表'],
        "buildings"@ == seq!['b', 'u', 'i', 'l', 'd', 'i', 'n', 'g', 's'],
        "配方列表"@ == seq!['配', '方', '列', '表'],
        "recipes"@ == seq!['r', 'e', 'c', 'i', 'p', 'e', 's'],
        "研究列表"@ == seq!['研', '究', '列', '表'],
        "research"@ == seq!['r', 'e', 's', 'e', 'a', 'r', 'c', 'h'],
        "人口"@ == seq!['人', '口'],
        "population"@ == seq!['p', 'o', 'p', 'u', 'l', 'a', 't', 'i', 'o', 'n'],
        "pop"@ == seq!['p', 'o', 'p'],
        "幫助"@ == seq!['幫', '助'],
        "help"@ == seq!['h', 'e', 'l', 'p'],
        "?"@ == seq!['?'],
        "離開"@ == seq!['離', '開'],
        "quit"@ == seq!['q', 'u', 'i', 't'],
        "exit"@ == seq!['e', 'x', 'i', 't'],
        "q"@ == seq!['q'],
{
    reveal_strlit("計算");
    reveal_strlit("calculate");
    reveal_strlit("calc");
    reveal_strlit("平衡");
    reveal_strlit("balance");
    reveal_strlit("缺口");
    reveal_strlit("gaps");
    reveal_strlit("難度");
    reveal_strlit("difficulty");
    reveal_strlit("解鎖");
    reveal_strlit("unlock");
    reveal_strlit("鎖定");
    reveal_strlit("lock");
    reveal_strlit("解鎖列表");
    reveal_strlit("unlocked");
    reveal_strlit("偏好");
    reveal_strlit("prefer");
    reveal_strlit("資源列表");
    reveal_strlit("resources");
    reveal_strlit("建築列表");
    reveal_strlit("buildings");
    reveal_strlit("配方列表");
    reveal_strlit("recipes");
    reveal_strlit("研究列表");
    reveal_strlit("research");
    reveal_strlit("人口");
    reveal_strlit("population");
    reveal_strlit("pop");
    reveal_strlit("幫助");
    reveal_strlit("help");
    reveal_strlit("?");
    reveal_strlit("離開");
    reveal_strlit("quit");
    reveal_strlit("exit");
    reveal_strlit("q");
}

/// Each spelling of a command that takes no argument, typed alone on a line,
/// gives that command.
pub proof fn lemma_command_words_alone(c: Command)
    ensures
        parses_to(seq!["平衡"@], c) ==> c is Balance,
        parses_to(seq!["balance"@], c) ==> c is Balance,
        parses_to(seq!["缺口"@], c) ==> c is Gaps,
        parses_to(seq!["gaps"@], c) ==> c is Gaps,
        parses_to(seq!["難度"@], c) ==> (c matches Command::Difficulty(DifficultyCommand::Show)),
        parses_to(seq!["difficulty"@], c) ==> (c matches Command::Difficulty(DifficultyCommand::Show)),
        parses_to(seq!["解鎖列表"@], c) ==> c is UnlockedList,
        parses_to(seq!["unlocked"@], c) ==> c is UnlockedList,
        parses_to(seq!["資源列表"@], c) ==> c is ListResources,
        parses_to(seq!["resources"@], c) ==> c is ListResources,
        parses_to(seq!["建築列表"@], c) ==> c is ListBuildings,
        parses_to(seq!["buildings"@], c) ==> c is ListBuildings,
        parses_to(seq!["配方列表"@], c) ==> (c matches Command::ListRecipes { building_id } && building_id is None),
        parses_to(seq!["recipes"@], c) ==> (c matches Command::ListRecipes { building_id } && building_id is None),
        parses_to(seq!["研究列表"@], c) ==> c is ListResearch,
        parses_to(seq!["research"@], c) ==> c is ListResearch,
        parses_to(seq!["幫助"@], c) ==> c is Help,
        parses_to(seq!["help"@], c) ==> c is Help,
        parses_to(seq!["?"@], c) ==> c is Help,
        parses_to(seq!["離開"@], c) ==> c is Quit,
        parses_to(seq!["quit"@], c) ==> c is Quit,
        parses_to(seq!["exit"@], c) ==> c is Quit,
        parses_to(seq!["q"@], c) ==> c is Quit,
{
    lemma_command_words_spelled();
    assert(parses_to(seq!["平衡"@], c) ==> c is Balance) by {
        assert(seq!["平衡"@][0] == "平衡"@);
    }
    assert(parses_to(seq!["balance"@], c) ==> c is Balance) by {
        assert(seq!["balance"@][0] == "balance"@);
    }
    assert(parses_to(seq!["缺口"@], c) ==> c is Gaps) by {
        assert(seq!["缺口"@][0] == "缺口"@);
    }
    assert(parses_to(seq!["gaps"@], c) ==> c is Gaps) by {
        assert(seq!["gaps"@][0] == "gaps"@);
    }
    assert(parses_to(seq!["難度"@], c) ==> (c matches Command::Difficulty(DifficultyCommand::Show))) by {
        assert(seq!["難度"@][0] == "難度"@);
    }
    assert(parses_to(seq!["difficulty"@], c) ==> (c matches Command::Difficulty(DifficultyCommand::Show))) by {
        assert(seq!["difficulty"@][0] == "difficulty"@);
    }
    assert(parses_to(seq!["解鎖列表"@], c) ==> c is UnlockedList) by {
        assert(seq!["解鎖列表"@][0] == "解鎖列表"@);
    }
    assert(parses_to(seq!["unlocked"@], c) ==> c is UnlockedList) by {
        assert(seq!["unlocked"@][0] == "unlocked"@);
    }
    assert(parses_to(seq!["資源列表"@], c) ==> c is ListResources) by {
        assert(seq!["資源列表"@][0] == "資源列表"@);
    }
    assert(parses_to(seq!["resources"@], c) ==> c is ListResources) by {
        assert(seq!["resources"@][0] == "resources"@);
    }
    assert(parses_to(seq!["建築列表"@], c) ==> c is ListBuildings) by {
        assert(seq!["建築列表"@][0] == "建築列表"@);
    }
    assert(parses_to(seq!["buildings"@], c) ==> c is ListBuildings) by {
        assert(seq!["buildings"@][0] == "buildings"@);
    }
    assert(parses_to(seq!["配方列表"@], c) ==> (c matches Command::ListRecipes { building_id } && building_id is None)) by {
        assert(seq!["配方列表"@][0] == "配方列表"@);
    }
    assert(parses_to(seq!["recipes"@], c) ==> (c matches Command::ListRecipes { building_id } && building_id is None)) by {
        assert(seq!["recipes"@][0] == "recipes"@);
    }
    assert(parses_to(seq!["研究列表"@], c) ==> c is ListResearch) by {
        assert(seq!["研究列表"@][0] == "研究列表"@);
    }
    assert(parses_to(seq!["research"@], c) ==> c is ListResearch) by {
        assert(seq!["research"@][0] == "research"@);
    }
    assert(parses_to(seq!["幫助"@], c) ==> c is Help) by {
        assert(seq!["幫助"@][0] == "幫助"@);
    }
    assert(parses_to(seq!["help"@], c) ==> c is Help) by {
        assert(seq!["help"@][0] == "help"@);
    }
    assert(parses_to(seq!["?"@], c) ==> c is Help) by {
        assert(seq!["?"@][0] == "?"@);
    }
    assert(parses_to(seq!["離開"@], c) ==> c is Quit) by {
        assert(seq!["離開"@][0] == "離開"@);
    }
    assert(parses_to(seq!["quit"@], c) ==> c is Quit) by {
        assert(seq!["quit"@][0] == "quit"@);
    }
    assert(parses_to(seq!["exit"@], c) ==> c is Quit) by {
        assert(seq!["exit"@][0] == "exit"@);
    }
    assert(parses_to(seq!["q"@], c) ==> c is Quit) by {
        assert("q"@[0] != "?"@[0]);
        assert(seq!["q"@][0] == "q"@);
    }
}

/// Each spelling of a command that takes arguments gives that command with
/// the following words as its arguments, in order; a rate is taken when it
/// reads as a number, a population when it reads as a count.
pub proof fn lemma_command_words_with_arguments(c: Command, a: Seq<char>, b: Seq<char>, n: u32)
    ensures
        float_text_spec(b) && parses_to(seq!["計算"@, a, b], c) ==> (c matches Command::Calculate { resource_id, rate_text } && resource_id@ == a && rate_text@ == b),
        float_text_spec(b) && parses_to(seq!["calculate"@, a, b], c) ==> (c matches Command::Calculate { resource_id, rate_text } && resource_id@ == a && rate_text@ == b),
        float_text_spec(b) && parses_to(seq!["calc"@, a, b], c) ==> (c matches Command::Calculate { resource_id, rate_text } && resource_id@ == a && rate_text@ == b),
        parses_to(seq!["難度"@, a, b], c) ==> (c matches Command::Difficulty(DifficultyCommand::SetValue { key, value }) && key@ == a && value@ == b),
        parses_to(seq!["difficulty"@, a, b], c) ==> (c matches Command::Difficulty(DifficultyCommand::SetValue { key, value }) && key@ == a && value@ == b),
        parses_to(seq!["解鎖"@, a], c) ==> (c matches Command::Unlock { research_id } && research_id@ == a),
        parses_to(seq!["unlock"@, a], c) ==> (c matches Command::Unlock { research_id } && research_id@ == a),
        parses_to(seq!["鎖定"@, a], c) ==> (c matches Command::Lock { research_id } && research_id@ == a),
        parses_to(seq!["lock"@, a], c) ==> (c matches Command::Lock { research_id } && research_id@ == a),
        parses_to(seq!["偏好"@, a, b], c) ==> (c matches Command::Prefer { resource_id, recipe_id } && resource_id@ == a && recipe_id@ == b),
        parses_to(seq!["prefer"@, a, b], c) ==> (c matches Command::Prefer { resource_id, recipe_id } && resource_id@ == a && recipe_id@ == b),
        parses_to(seq!["配方列表"@, a], c) ==> (c matches Command::ListRecipes { building_id } && building_id matches Some(m) && m@ == a),
        parses_to(seq!["recipes"@, a], c) ==> (c matches Command::ListRecipes { building_id } && building_id matches Some(m) && m@ == a),
        parse_u32_spec(a) == Some(n) && parses_to(seq!["人口"@, a], c) ==> (c matches Command::Population { count, housing_tier } && count == n && housing_tier is None),
        parse_u32_spec(a) == Some(n) && parses_to(seq!["population"@, a], c) ==> (c matches Command::Population { count, housing_tier } && count == n && housing_tier is None),
        parse_u32_spec(a) == Some(n) && parses_to(seq!["pop"@, a], c) ==> (c matches Command::Population { count, housing_tier } && count == n && housing_tier is None),
{
    lemma_command_words_spelled();
    assert(float_text_spec(b) && parses_to(seq!["計算"@, a, b], c) ==> (c matches Command::Calculate { resource_id, rate_text } && resource_id@ == a && rate_text@ == b)) by {
        assert(seq!["計算"@, a, b][0] == "計算"@);
    }
    assert(float_text_spec(b) && parses_to(seq!["calculate"@, a, b], c) ==> (c matches Command::Calculate { resource_id, rate_text } && resource_id@ == a && rate_text@ == b)) by {
        assert(seq!["calculate"@, a, b][0] == "calculate"@);
    }
    assert(float_text_spec(b) && parses_to(seq!["calc"@, a, b], c) ==> (c matches Command::Calculate { resource_id, rate_text } && resource_id@ == a && rate_text@ == b)) by {
        assert(seq!["calc"@, a, b][0] == "calc"@);
    }
    assert(parses_to(seq!["難度"@, a, b], c) ==> (c matches Command::Difficulty(DifficultyCommand::SetValue { key, value }) && key@ == a && value@ == b)) by {
        assert(seq!["難度"@, a, b][0] == "難度"@);
    }
    assert(parses_to(seq!["difficulty"@, a, b], c) ==> (c matches Command::Difficulty(DifficultyCommand::SetValue { key, value }) && key@ == a && value@ == b)) by {
        assert(seq!["difficulty"@, a, b][0] == "difficulty"@);
    }
    assert(parses_to(seq!["解鎖"@, a], c) ==> (c matches Command::Unlock { research_id } && research_id@ == a)) by {
        assert(seq!["解鎖"@, a][0] == "解鎖"@);
    }
    assert(parses_to(seq!["unlock"@, a], c) ==> (c matches Command::Unlock { research_id } && research_id@ == a)) by {
        assert(seq!["unlock"@, a][0] == "unlock"@);
    }
    assert(parses_to(seq!["鎖定"@, a], c) ==> (c matches Command::Lock { research_id } && research_id@ == a)) by {
        assert(seq!["鎖定"@, a][0] == "鎖定"@);
    }
    assert(parses_to(seq!["lock"@, a], c) ==> (c matches Command::Lock { research_id } && research_id@ == a)) by {
        assert(seq!["lock"@, a][0] == "lock"@);
    }
    assert(parses_to(seq!["偏好"@, a, b], c) ==> (c matches Command::Prefer { resource_id, recipe_id } && resource_id@ == a && recipe_id@ == b)) by {
        assert(seq!["偏好"@, a, b][0] == "偏好"@);
    }
    assert(parses_to(seq!["prefer"@, a, b], c) ==> (c matches Command::Prefer { resource_id, recipe_id } && resource_id@ == a && recipe_id@ == b)) by {
        assert(seq!["prefer"@, a, b][0] == "prefer"@);
    }
    assert(parses_to(seq!["配方列表"@, a], c) ==> (c matches Command::ListRecipes { building_id } && building_id matches Some(m) && m@ == a)) by {
        assert(seq!["配方列表"@, a][0] == "配方列表"@);
    }
    assert(parses_to(seq!["recipes"@, a], c) ==> (c matches Command::ListRecipes { building_id } && building_id matches Some(m) && m@ == a)) by {
        assert(seq!["recipes"@, a][0] == "recipes"@);
    }
    assert(parse_u32_spec(a) == Some(n) && parses_to(seq!["人口"@, a], c) ==> (c matches Command::Population { count, housing_tier } && count == n && housing_tier is None)) by {
        assert(seq!["人口"@, a][0] == "人口"@);
    }
    assert(parse_u32_spec(a) == Some(n) && parses_to(seq!["population"@, a], c) ==> (c matches Command::Population { count, housing_tier } && count == n && housing_tier is None)) by {
        assert(seq!["population"@, a][0] == "population"@);
    }
    assert(parse_u32_spec(a) == Some(n) && parses_to(seq!["pop"@, a], c) ==> (c matches Command::Population { count, housing_tier } && count == n && housing_tier is None)) by {
        assert(seq!["pop"@, a][0] == "pop"@);
    }
}

/// An owned string with the characters of a literal.
fn owned(literal: &str) -> (s: String)
    ensures
        s@ == literal@,
{
    literal.to_owned()
}

/// Parses one line typed at the prompt.
pub fn parse_command(input: &str) -> (cmd: Command)
    ensures
        parses_to(words_spec(input@), cmd),
{
    let words = split_whitespace(input);
    let ghost w = views_of(words@);
    assert(w == words_spec(input@));
    if words.len() == 0 {
        return Command::Unknown(String::new());
    }
    assert(w[0] == words@[0]@);
    let head = &words[0];
    if is_word(head, "計算") || is_word(head, "calculate") || is_word(head, "calc") {
        if words.len() >= 3 && is_float_text(&words[2]) {
            assert(w[1] == words@[1]@ && w[2] == words@[2]@);
            Command::Calculate {
                resource_id: string_from_chars(&words[1]),
                rate_text: string_from_chars(&words[2]),
            }
        } else {
            Command::Unknown(owned("用法: 計算 <resource_id> <rate>"))
        }
    } else if is_word(head, "平衡") || is_word(head, "balance") {
        Command::Balance
    } else if is_word(head, "缺口") || is_word(head, "gaps") {
        Command::Gaps
    } else if is_word(head, "難度") || is_word(head, "difficulty") {
        if words.len() >= 3 {
            assert(w[1] == words@[1]@ && w[2] == words@[2]@);
            Command::Difficulty(
                DifficultyCommand::SetValue {
                    key: string_from_chars(&words[1]),
                    value: string_from_chars(&words[2]),
                },
            )
        } else {
            Command::Difficulty(DifficultyCommand::Show)
        }
    } else if is_word(head, "解鎖") || is_word(head, "unlock") {
        if words.len() >= 2 {
            assert(w[1] == words@[1]@);
            Command::Unlock { research_id: string_from_chars(&words[1]) }
        } else {
            Command::Unknown(owned("用法: 解鎖 <research_id>"))
        }
    } else if is_word(head, "鎖定") || is_word(head, "lock") {
        if words.len() >= 2 {
            assert(w[1] == words@[1]@);
            Command::Lock { research_id: string_from_chars(&words[1]) }
        } else {
            Command::Unknown(owned("用法: 鎖定 <research_id>"))
        }
    } else if is_word(head, "解鎖列表") || is_word(head, "unlocked") {
        Command::UnlockedList
    } else if is_word(head, "偏好") || is_word(head, "prefer") {
        if words.len() >= 3 {
            assert(w[1] == words@[1]@ && w[2] == words@[2]@);
            Command::Prefer {
                resource_id: string_from_chars(&words[1]),
                recipe_id: string_from_chars(&words[2]),
            }
        } else {
            Command::Unknown(owned("用法: 偏好 <resource_id> <recipe_id>"))
        }
    } else if is_word(head, "資源列表") || is_word(head, "resources") {
        Command::ListResources
    } else if is_word(head, "建築列表") || is_word(head, "buildings") {
        Command::ListBuildings
    } else if is_word(head, "配方列表") || is_word(head, "recipes") {
        if words.len() >= 2 {
            assert(w[1] == words@[1]@);
            Command::ListRecipes { building_id: Some(string_from_chars(&words[1])) }
        } else {
            Command::ListRecipes { building_id: None }
        }
    } else if is_word(head, "研究列表") || is_word(head, "research") {
        Command::ListResearch
    } else if is_word(head, "人口") || is_word(head, "population") || is_word(head, "pop") {
        if words.len() >= 2 {
            assert(w[1] == words@[1]@);
            if let Some(count) = parse_u32(&words[1]) {
                let housing_tier = if words.len() >= 3 {
                    assert(w[2] == words@[2]@);
                    parse_u32(&words[2])
                } else {
                    None
                };
                return Command::Population { count, housing_tier };
            }
        }
        Command::Unknown(owned("用法: 人口 <人數> [住宅等級]"))
    } else if is_word(head, "幫助") || is_word(head, "help") || is_word(head, "?") {
        Command::Help
    } else if is_word(head, "離開") || is_word(head, "quit") || is_word(head, "exit") || is_word(
        head,
        "q",
    ) {
        Command::Quit
    } else {
        let mut message = chars_of("未知指令: ");
        let mut i: usize = 0;
        let ghost prefix = message@;
        while i < head.len()
            invariant
                i <= head@.len(),
                message@ == prefix + head@.take(i as int),
            decreases head@.len() - i,
        {
            message.push(head[i]);
            assert(head@.take(i + 1) == head@.take(i as int).push(head@[i as int]));
            i = i + 1;
        }
        assert(head@.take(i as int) == head@);
        Command::Unknown(string_from_chars(&message))
    }
}

/// The difficulty settings the difficulty command can change.
#[derive(Debug, Clone, Copy, PartialEq, Eq, Structural)]
pub enum DifficultyKey {
    Maintenance,
    Fuel,
    Food,
    Goods,
    Conveyor,
    Storage,
}

/// The setting a key names, in English or Chinese.
pub open spec fn difficulty_key_spec(key: Seq<char>) -> Option<DifficultyKey> {
    if key == "maintenance"@ || key == "維護"@ {
        Some(DifficultyKey::Maintenance)
    } else if key == "fuel"@ || key == "燃油"@ {
        Some(DifficultyKey::Fuel)
    } else if key == "food"@ || key == "食物"@ {
        Some(DifficultyKey::Food)
    } else if key == "goods"@ || key == "商品"@ {
        Some(DifficultyKey::Goods)
    } else if key == "conveyor"@ || key == "傳送帶"@ {
        Some(DifficultyKey::Conveyor)
    } else if key == "storage"@ || key == "倉儲"@ {
        Some(DifficultyKey::Storage)
    } else {
        None
    }
}

/// The setting a key of the difficulty command names; `None` for an unknown key.
pub fn difficulty_key(key: &String) -> (k: Option<DifficultyKey>)
    ensures
        k == difficulty_key_spec(key@),
{
    let w = chars_of(key.as_str());
    if is_word(&w, "maintenance") || is_word(&w, "維護") {
        Some(DifficultyKey::Maintenance)
    } else if is_word(&w, "fuel") || is_word(&w, "燃油") {
        Some(DifficultyKey::Fuel)
    } else if is_word(&w, "food") || is_word(&w, "食物") {
        Some(DifficultyKey::Food)
    } else if is_word(&w, "goods") || is_word(&w, "商品") {
        Some(DifficultyKey::Goods)
    } else if is_word(&w, "conveyor") || is_word(&w, "傳送帶") {
        Some(DifficultyKey::Conveyor)
    } else if is_word(&w, "storage") || is_word(&w, "倉儲") {
        Some(DifficultyKey::Storage)
    } else {
        None
    }
}

/// A power switch value: `on` or `開` turn it on, `off` or `關` off; anything
/// else is no value.
pub fn parse_switch(value: &String) -> (on: Option<bool>)
    ensures
        on == (if value@ == "on"@ || value@ == "開"@ {
            Some(true)
        } else if value@ == "off"@ || value@ == "關"@ {
            Some(false)
        } else {
            None
        }),
{
    let w = chars_of(value.as_str());
    if is_word(&w, "on") || is_word(&w, "開") {
        Some(true)
    } else if is_word(&w, "off") || is_word(&w, "關") {
        Some(false)
    } else {
        None
    }
}

} // verus!
