//! The request gate: which fixed reply a request gets, or whether it is
//! forwarded to the backend.
pub mod simsim;

use vstd::prelude::*;
use vstd::string::*;
use vstd::utf8::{decode_utf8, valid_utf8};
use crate::text::{contains, has_substring, lowercase, to_lowercase, utf8_string};
use self::simsim::{answered_by, checkit, checkit_answer, first_query, second_query, WordVectors};

verus! {

/// The rules file: six trigger phrases, an exception phrase, the fixed reply,
/// and where and with which key requests are forwarded.
pub struct Config {
    pub rule1: String,
    pub exception1: String,
    pub rule2: String,
    pub rule3: String,
    pub rule4: String,
    pub rule5: String,
    pub rule6: String,
    pub resp: String,
    pub url: String,
    pub api_key: String,
}

/// What to do with a request.
pub enum RuleAction {
    /// Answer with this fixed reply.
    Respond(String),
    /// Send `body` to the backend at `url`, authorized with `api_key`.
    Forward { url: String, api_key: String, body: String },
}

/// One of the rules two to six occurs in `s`.
pub open spec fn hits_later_rules(s: Seq<char>, c: Config) -> bool {
    ||| has_substring(s, c.rule2@)
    ||| has_substring(s, c.rule3@)
    ||| has_substring(s, c.rule4@)
    ||| has_substring(s, c.rule5@)
    ||| has_substring(s, c.rule6@)
}

/// One of the six rules occurs in `s`.
pub open spec fn hits_rules(s: Seq<char>, c: Config) -> bool {
    has_substring(s, c.rule1@) || hits_later_rules(s, c)
}

/// The similarity check decides: the lowercased input holds neither the
/// exception nor a rule.
pub open spec fn needs_similarity(c: Config, input: Seq<char>) -> bool {
    !has_substring(lowercase(input), c.exception1@) && !hits_rules(lowercase(input), c)
}

/// The fixed reply a request gets (None: it is forwarded), given what the
/// similarity check of the first rule against the input answered.
/// With the exception phrase in the lowercased input, only rules two to six
/// count, and they are looked for in the input as it came; otherwise any rule
/// in the lowercased input, or a similarity answer containing "match", gets
/// the reply.
pub open spec fn reply_for(c: Config, input: Seq<char>, verdict: Seq<char>) -> Option<Seq<char>> {
    let low = lowercase(input);
    if has_substring(low, c.exception1@) {
        if hits_later_rules(input, c) {
            Some(c.resp@)
        } else {
            None
        }
    } else if hits_rules(low, c) {
        Some(c.resp@)
    } else if has_substring(verdict, "match"@) {
        Some(c.resp@)
    } else {
        None
    }
}

/// `action` carries out the decision `reply`: the reply itself, or the
/// input forwarded to the configured backend.
pub open spec fn acts_on(action: RuleAction, reply: Option<Seq<char>>, c: Config, input: Seq<char>) -> bool {
    match action {
        RuleAction::Respond(s) => reply == Some(s@),
        RuleAction::Forward { url, api_key, body } => {
            &&& reply is None
            &&& url@ == c.url@
            &&& api_key@ == c.api_key@
            &&& body@ == input
        },
    }
}

/// A request whose lowercased text holds one of the rules but not the
/// exception phrase gets the fixed reply, whatever the similarity check says.
pub proof fn lemma_rule_hit_replies(c: Config, input: Seq<char>, verdict: Seq<char>)
    requires
        !has_substring(lowercase(input), c.exception1@),
        hits_rules(lowercase(input), c),
    ensures
        reply_for(c, input, verdict) == Some(c.resp@),
{
}

/// With the exception phrase in the lowercased request, the similarity check
/// plays no part, and the request gets the fixed reply exactly when it holds
/// one of rules two to six as it came.
pub proof fn lemma_exception_phrase(c: Config, input: Seq<char>, v1: Seq<char>, v2: Seq<char>)
    requires
        has_substring(lowercase(input), c.exception1@),
    ensures
        reply_for(c, input, v1) == reply_for(c, input, v2),
        reply_for(c, input, v1) is Some <==> hits_later_rules(input, c),
{
}

/// When no phrase decides, the request gets the fixed reply exactly when the
/// similarity answer holds "match", and is forwarded otherwise.
pub proof fn lemma_similarity_decides(c: Config, input: Seq<char>, verdict: Seq<char>)
    requires
        needs_similarity(c, input),
    ensures
        reply_for(c, input, verdict) is Some <==> has_substring(verdict, "match"@),
        reply_for(c, input, verdict) matches Some(r) ==> r == c.resp@,
{
}

/// What the phrases decide, each rule looked for by its own field: without
/// the exception phrase in the lowercased request, a lowercased request that
/// holds any of rules one to six gets the fixed reply; with it, the request
/// gets the fixed reply exactly when, as it came, it holds one of rules two
/// to six, and is forwarded otherwise; the similarity answer plays no part in
/// either case.
pub proof fn lemma_phrases_decide(c: Config, input: Seq<char>, verdict: Seq<char>)
    ensures
        !has_substring(lowercase(input), c.exception1@) && (has_substring(lowercase(input), c.rule1@)
            || has_substring(lowercase(input), c.rule2@) || has_substring(lowercase(input), c.rule3@)
            || has_substring(lowercase(input), c.rule4@) || has_substring(lowercase(input), c.rule5@)
            || has_substring(lowercase(input), c.rule6@)) ==> reply_for(c, input, verdict) == Some(
            c.resp@,
        ),
        has_substring(lowercase(input), c.exception1@) ==> reply_for(c, input, verdict) == if (
        has_substring(input, c.rule2@) || has_substring(input, c.rule3@) || has_substring(
            input,
            c.rule4@,
        ) || has_substring(input, c.rule5@) || has_substring(input, c.rule6@)) {
            Some(c.resp@)
        } else {
            None
        },
        !has_substring(lowercase(input), c.exception1@) && !has_substring(lowercase(input), c.rule1@)
            && !has_substring(lowercase(input), c.rule2@) && !has_substring(lowercase(input), c.rule3@)
            && !has_substring(lowercase(input), c.rule4@) && !has_substring(lowercase(input), c.rule5@)
            && !has_substring(lowercase(input), c.rule6@) ==> reply_for(c, input, verdict) == if has_substring(
            verdict,
            "match"@,
        ) {
            Some(c.resp@)
        } else {
            None
        },
{
}

/// An action that carries out a decision answers with the fixed reply
/// exactly when the decision is to reply, and otherwise forwards the request
/// unchanged to the configured backend with the configured key.
pub proof fn lemma_action_carries_out(r: RuleAction, c: Config, input: Seq<char>, verdict: Seq<char>)
    requires
        acts_on(r, reply_for(c, input, verdict), c, input),
    ensures
        reply_for(c, input, verdict) is Some <==> r is Respond,
        r matches RuleAction::Respond(s) ==> s@ == c.resp@,
        r matches RuleAction::Forward { url, api_key, body } ==> url@ == c.url@ && api_key@
            == c.api_key@ && body@ == input,
{
}

fn any_later_rule(s: &str, config: &Config) -> (r: bool)
    ensures
        r == hits_later_rules(s@, *config),
{
    contains(s, config.rule2.as_str()) || contains(s, config.rule3.as_str()) || contains(
        s,
        config.rule4.as_str(),
    ) || contains(s, config.rule5.as_str()) || contains(s, config.rule6.as_str())
}

/// Decides how to answer `linput` under `config`. `below_half` tells whether
/// the cosine similarity of two count vectors is below one half.
pub fn runrule<F: Fn(&WordVectors) -> bool>(config: &Config, linput: &str, below_half: F) -> (r:
    RuleAction)
    requires
        forall|v: &WordVectors| below_half.requires((v,)),
    ensures
        exists|b1: bool, b2: bool|
            {
                &&& needs_similarity(*config, linput@) ==> answered_by(
                    below_half,
                    first_query(config.rule1@, linput@),
                    b1,
                )
                &&& needs_similarity(*config, linput@) ==> (second_query(
                    config.rule1@,
                    linput@,
                ) matches Some(q) ==> answered_by(below_half, q, b2))
                &&& acts_on(
                    r,
                    reply_for(*config, linput@, checkit_answer(config.rule1@, linput@, b1, b2)),
                    *config,
                    linput@,
                )
            },
        !has_substring(lowercase(linput@), config.exception1@) && (has_substring(
            lowercase(linput@),
            config.rule1@,
        ) || has_substring(lowercase(linput@), config.rule2@) || has_substring(
            lowercase(linput@),
            config.rule3@,
        ) || has_substring(lowercase(linput@), config.rule4@) || has_substring(
            lowercase(linput@),
            config.rule5@,
        ) || has_substring(lowercase(linput@), config.rule6@)) ==> (r matches RuleAction::Respond(
            s,
        ) && s@ == config.resp@),
        has_substring(lowercase(linput@), config.exception1@) ==> (r is Respond <==> (has_substring(
            linput@,
            config.rule2@,
        ) || has_substring(linput@, config.rule3@) || has_substring(linput@, config.rule4@)
            || has_substring(linput@, config.rule5@) || has_substring(linput@, config.rule6@))),
        r matches RuleAction::Respond(s) ==> s@ == config.resp@,
{
    let lower = to_lowercase(linput);
    let forward = RuleAction::Forward {
        url: config.url.clone(),
        api_key: config.api_key.clone(),
        body: String::from_str(linput),
    };
    if contains(lower.as_str(), config.exception1.as_str()) {
        let r = if any_later_rule(linput, config) {
            RuleAction::Respond(config.resp.clone())
        } else {
            forward
        };
        assert(acts_on(r, reply_for(*config, linput@, checkit_answer(config.rule1@, linput@, false, false)), *config, linput@));
        return r;
    }
    if contains(lower.as_str(), config.rule1.as_str()) || any_later_rule(lower.as_str(), config) {
        let r = RuleAction::Respond(config.resp.clone());
        assert(acts_on(r, reply_for(*config, linput@, checkit_answer(config.rule1@, linput@, false, false)), *config, linput@));
        return r;
    }
    let verdict = checkit(config.rule1.as_str(), linput, below_half);
    let r = if contains(verdict.as_str(), "match") {
        RuleAction::Respond(config.resp.clone())
    } else {
        forward
    };
    let ghost (b1, b2) = choose|b1: bool, b2: bool|
        {
            &&& answered_by(below_half, first_query(config.rule1@, linput@), b1)
            &&& (second_query(config.rule1@, linput@) matches Some(q) ==> answered_by(below_half, q, b2))
            &&& verdict@ == checkit_answer(config.rule1@, linput@, b1, b2)
        };
    assert(acts_on(r, reply_for(*config, linput@, checkit_answer(config.rule1@, linput@, b1, b2)), *config, linput@));
    r
}

/// The reply to a forwarded request: the backend's answer, or a notice that
/// the backend could not be reached.
pub fn backend_reply(reply: Option<String>) -> (r: String)
    ensures
        r@ == match reply {
            Some(s) => s@,
            None => "Failed to fetch from API"@,
        },
{
    match reply {
        Some(s) => s,
        None => String::from_str("Failed to fetch from API"),
    }
}

/// The text of a request body: the body decoded as UTF-8, or an error notice
/// when it is not valid UTF-8.
pub fn request_text(body: &[u8]) -> (r: String)
    ensures
        valid_utf8(body@) ==> r@ == decode_utf8(body@),
        !valid_utf8(body@) ==> r@ == "ERROR: non-utf8 data received."@,
{
    match utf8_string(body) {
        Some(s) => s,
        None => String::from_str("ERROR: non-utf8 data received."),
    }
}

} // verus!
