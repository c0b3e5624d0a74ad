use vstd::prelude::*;

use vstd::string::StringSliceAdditionalSpecFns;

use crate::core_control::nonblank;
use crate::json::{as_array, as_i64, as_str, as_u64, get, lemma_view_entries_index, lemma_view_entries_len, lemma_view_list_len, obj_get, view_entries, view_list, Json, JsonV};
use crate::proxies::{text_less, text_lt};
use crate::state::Rule;
use crate::text::{
    cat, contains, contains_str, decimal, decimal_u128, int_text, i64_text, lines_of, lines_v, own, split_char,
    split_str, starts_with, starts_with_str, str_eq, to_chars, to_uppercase, trim, trim_str, upper_text,
};

verus! {

/// The rule types the rule editor offers, comma separated, in menu order.
pub const RULE_TYPES: &'static str = "DOMAIN,DOMAIN-SUFFIX,DOMAIN-KEYWORD,DOMAIN-REGEX,GEOSITE,GEOIP,\
    SRC-GEOIP,IP-ASN,SRC-IP-ASN,IP-CIDR,IP-CIDR6,SRC-IP-CIDR,IP-SUFFIX,SRC-IP-SUFFIX,SRC-PORT,DST-PORT,\
    IN-PORT,DSCP,PROCESS-NAME,PROCESS-PATH,PROCESS-NAME-REGEX,PROCESS-PATH-REGEX,NETWORK,UID,IN-TYPE,\
    IN-USER,IN-NAME,SUB-RULE,RULE-SET,AND,OR,NOT,MATCH";

/// The example payload shown for a rule type in the add-rule form
/// (`windows` picks the Windows examples for process rules).
pub open spec fn rule_example_v(kind: Seq<char>, windows: bool) -> Seq<char> {
    if kind == "DOMAIN"@ {
        "example.com"@
    } else if kind == "DOMAIN-SUFFIX"@ {
        "example.com"@
    } else if kind == "DOMAIN-KEYWORD"@ {
        "example"@
    } else if kind == "DOMAIN-REGEX"@ {
        "example.*"@
    } else if kind == "GEOSITE"@ {
        "youtube"@
    } else if kind == "GEOIP"@ {
        "CN"@
    } else if kind == "SRC-GEOIP"@ {
        "CN"@
    } else if kind == "IP-ASN"@ {
        "13335"@
    } else if kind == "SRC-IP-ASN"@ {
        "9808"@
    } else if kind == "IP-CIDR"@ {
        "127.0.0.0/8"@
    } else if kind == "IP-CIDR6"@ {
        "2620:0:2d0:200::7/32"@
    } else if kind == "SRC-IP-CIDR"@ {
        "192.168.1.201/32"@
    } else if kind == "IP-SUFFIX"@ {
        "8.8.8.8/24"@
    } else if kind == "SRC-IP-SUFFIX"@ {
        "192.168.1.201/8"@
    } else if kind == "SRC-PORT"@ {
        "7777"@
    } else if kind == "DST-PORT"@ {
        "80"@
    } else if kind == "IN-PORT"@ {
        "7897"@
    } else if kind == "DSCP"@ {
        "4"@
    } else if kind == "PROCESS-NAME"@ {
        if windows { "chrome.exe"@ } else { "curl"@ }
    } else if kind == "PROCESS-PATH"@ {
        if windows { "C:\\Program Files\\Google\\Chrome\\Application\\chrome.exe"@ } else { "/usr/bin/wget"@ }
    } else if kind == "PROCESS-NAME-REGEX"@ {
        ".*telegram.*"@
    } else if kind == "PROCESS-PATH-REGEX"@ {
        if windows { "(?i).*Application\\chrome.*"@ } else { ".*bin/wget"@ }
    } else if kind == "NETWORK"@ {
        "udp"@
    } else if kind == "UID"@ {
        "1001"@
    } else if kind == "IN-TYPE"@ {
        "SOCKS/HTTP"@
    } else if kind == "IN-USER"@ {
        "mihomo"@
    } else if kind == "IN-NAME"@ {
        "ss"@
    } else if kind == "SUB-RULE"@ {
        "(NETWORK,tcp)"@
    } else if kind == "RULE-SET"@ {
        "providername"@
    } else if kind == "AND"@ {
        "((DOMAIN,baidu.com),(NETWORK,UDP))"@
    } else if kind == "OR"@ {
        "((NETWORK,UDP),(DOMAIN,baidu.com))"@
    } else if kind == "NOT"@ {
        "((DOMAIN,baidu.com))"@
    } else {
        ""@
    }
}

/// The rule types of [`RULE_TYPES`], one by one.
pub open spec fn rule_types_v() -> Seq<Seq<char>> {
    seq![
        "DOMAIN"@,
        "DOMAIN-SUFFIX"@,
        "DOMAIN-KEYWORD"@,
        "DOMAIN-REGEX"@,
        "GEOSITE"@,
        "GEOIP"@,
        "SRC-GEOIP"@,
        "IP-ASN"@,
        "SRC-IP-ASN"@,
        "IP-CIDR"@,
        "IP-CIDR6"@,
        "SRC-IP-CIDR"@,
        "IP-SUFFIX"@,
        "SRC-IP-SUFFIX"@,
        "SRC-PORT"@,
        "DST-PORT"@,
        "IN-PORT"@,
        "DSCP"@,
        "PROCESS-NAME"@,
        "PROCESS-PATH"@,
        "PROCESS-NAME-REGEX"@,
        "PROCESS-PATH-REGEX"@,
        "NETWORK"@,
        "UID"@,
        "IN-TYPE"@,
        "IN-USER"@,
        "IN-NAME"@,
        "SUB-RULE"@,
        "RULE-SET"@,
        "AND"@,
        "OR"@,
        "NOT"@,
        "MATCH"@,
    ]
}

proof fn lemma_rule_types_no_comma()
    ensures
        forall|i: int| 0 <= i < rule_types_v().len() ==> !(#[trigger] rule_types_v()[i]).contains(','),
{
    let ls = rule_types_v();
    assert(!ls[0].contains(',')) by {
        reveal_strlit("DOMAIN");
    }
    assert(!ls[1].contains(',')) by {
        reveal_strlit("DOMAIN-SUFFIX");
    }
    assert(!ls[2].contains(',')) by {
        reveal_strlit("DOMAIN-KEYWORD");
    }
    assert(!ls[3].contains(',')) by {
        reveal_strlit("DOMAIN-REGEX");
    }
    assert(!ls[4].contains(',')) by {
        reveal_strlit("GEOSITE");
    }
    assert(!ls[5].contains(',')) by {
        reveal_strlit("GEOIP");
    }
    assert(!ls[6].contains(',')) by {
        reveal_strlit("SRC-GEOIP");
    }
    assert(!ls[7].contains(',')) by {
        reveal_strlit("IP-ASN");
    }
    assert(!ls[8].contains(',')) by {
        reveal_strlit("SRC-IP-ASN");
    }
    assert(!ls[9].contains(',')) by {
        reveal_strlit("IP-CIDR");
    }
    assert(!ls[10].contains(',')) by {
        reveal_strlit("IP-CIDR6");
    }
    assert(!ls[11].contains(',')) by {
        reveal_strlit("SRC-IP-CIDR");
    }
    assert(!ls[12].contains(',')) by {
        reveal_strlit("IP-SUFFIX");
    }
    assert(!ls[13].contains(',')) by {
        reveal_strlit("SRC-IP-SUFFIX");
    }
    assert(!ls[14].contains(',')) by {
        reveal_strlit("SRC-PORT");
    }
    assert(!ls[15].contains(',')) by {
        reveal_strlit("DST-PORT");
    }
    assert(!ls[16].contains(',')) by {
        reveal_strlit("IN-PORT");
    }
    assert(!ls[17].contains(',')) by {
        reveal_strlit("DSCP");
    }
    assert(!ls[18].contains(',')) by {
        reveal_strlit("PROCESS-NAME");
    }
    assert(!ls[19].contains(',')) by {
        reveal_strlit("PROCESS-PATH");
    }
    assert(!ls[20].contains(',')) by {
        reveal_strlit("PROCESS-NAME-REGEX");
    }
    assert(!ls[21].contains(',')) by {
        reveal_strlit("PROCESS-PATH-REGEX");
    }
    assert(!ls[22].contains(',')) by {
        reveal_strlit("NETWORK");
    }
    assert(!ls[23].contains(',')) by {
        reveal_strlit("UID");
    }
    assert(!ls[24].contains(',')) by {
        reveal_strlit("IN-TYPE");
    }
    assert(!ls[25].contains(',')) by {
        reveal_strlit("IN-USER");
    }
    assert(!ls[26].contains(',')) by {
        reveal_strlit("IN-NAME");
    }
    assert(!ls[27].contains(',')) by {
        reveal_strlit("SUB-RULE");
    }
    assert(!ls[28].contains(',')) by {
        reveal_strlit("RULE-SET");
    }
    assert(!ls[29].contains(',')) by {
        reveal_strlit("AND");
    }
    assert(!ls[30].contains(',')) by {
        reveal_strlit("OR");
    }
    assert(!ls[31].contains(',')) by {
        reveal_strlit("NOT");
    }
    assert(!ls[32].contains(',')) by {
        reveal_strlit("MATCH");
    }
}

proof fn lemma_rule_types_joined()
    ensures
        RULE_TYPES@ == crate::text::join(rule_types_v(), seq![',']),
{
    reveal_strlit("DOMAIN,DOMAIN-SUFFIX,DOMAIN-KEYWORD,DOMAIN-REGEX,GEOSITE,GEOIP,SRC-GEOIP,IP-ASN,SRC-IP-ASN,IP-CIDR,IP-CIDR6,SRC-IP-CIDR,IP-SUFFIX,SRC-IP-SUFFIX,SRC-PORT,DST-PORT,IN-PORT,DSCP,PROCESS-NAME,PROCESS-PATH,PROCESS-NAME-REGEX,PROCESS-PATH-REGEX,NETWORK,UID,IN-TYPE,IN-USER,IN-NAME,SUB-RULE,RULE-SET,AND,OR,NOT,MATCH");
    reveal_strlit("DOMAIN");
    reveal_strlit("DOMAIN-SUFFIX");
    reveal_strlit("DOMAIN-KEYWORD");
    reveal_strlit("DOMAIN-REGEX");
    reveal_strlit("GEOSITE");
    reveal_strlit("GEOIP");
    reveal_strlit("SRC-GEOIP");
    reveal_strlit("IP-ASN");
    reveal_strlit("SRC-IP-ASN");
    reveal_strlit("IP-CIDR");
    reveal_strlit("IP-CIDR6");
    reveal_strlit("SRC-IP-CIDR");
    reveal_strlit("IP-SUFFIX");
    reveal_strlit("SRC-IP-SUFFIX");
    reveal_strlit("SRC-PORT");
    reveal_strlit("DST-PORT");
    reveal_strlit("IN-PORT");
    reveal_strlit("DSCP");
    reveal_strlit("PROCESS-NAME");
    reveal_strlit("PROCESS-PATH");
    reveal_strlit("PROCESS-NAME-REGEX");
    reveal_strlit("PROCESS-PATH-REGEX");
    reveal_strlit("NETWORK");
    reveal_strlit("UID");
    reveal_strlit("IN-TYPE");
    reveal_strlit("IN-USER");
    reveal_strlit("IN-NAME");
    reveal_strlit("SUB-RULE");
    reveal_strlit("RULE-SET");
    reveal_strlit("AND");
    reveal_strlit("OR");
    reveal_strlit("NOT");
    reveal_strlit("MATCH");
    reveal_with_fuel(crate::text::join, 34);
    assert(RULE_TYPES@ =~= crate::text::join(rule_types_v(), seq![',']));
}

/// The rule types offered are the comma-separated names of [`RULE_TYPES`].
pub proof fn lemma_rule_types_split()
    ensures
        split_char(RULE_TYPES@, ',') == rule_types_v(),
{
    lemma_rule_types_no_comma();
    lemma_rule_types_joined();
    crate::text::lemma_split_joined_by(rule_types_v(), ',');
}

/// A rule type the editor does not offer has no example payload.
proof fn lemma_unoffered_rule_example(kind: Seq<char>, windows: bool)
    requires
        !rule_types_v().contains(kind),
    ensures
        rule_example_v(kind, windows).len() == 0,
{
    let ls = rule_types_v();
    assert(ls[0] == "DOMAIN"@);
    assert(ls[1] == "DOMAIN-SUFFIX"@);
    assert(ls[2] == "DOMAIN-KEYWORD"@);
    assert(ls[3] == "DOMAIN-REGEX"@);
    assert(ls[4] == "GEOSITE"@);
    assert(ls[5] == "GEOIP"@);
    assert(ls[6] == "SRC-GEOIP"@);
    assert(ls[7] == "IP-ASN"@);
    assert(ls[8] == "SRC-IP-ASN"@);
    assert(ls[9] == "IP-CIDR"@);
    assert(ls[10] == "IP-CIDR6"@);
    assert(ls[11] == "SRC-IP-CIDR"@);
    assert(ls[12] == "IP-SUFFIX"@);
    assert(ls[13] == "SRC-IP-SUFFIX"@);
    assert(ls[14] == "SRC-PORT"@);
    assert(ls[15] == "DST-PORT"@);
    assert(ls[16] == "IN-PORT"@);
    assert(ls[17] == "DSCP"@);
    assert(ls[18] == "PROCESS-NAME"@);
    assert(ls[19] == "PROCESS-PATH"@);
    assert(ls[20] == "PROCESS-NAME-REGEX"@);
    assert(ls[21] == "PROCESS-PATH-REGEX"@);
    assert(ls[22] == "NETWORK"@);
    assert(ls[23] == "UID"@);
    assert(ls[24] == "IN-TYPE"@);
    assert(ls[25] == "IN-USER"@);
    assert(ls[26] == "IN-NAME"@);
    assert(ls[27] == "SUB-RULE"@);
    assert(ls[28] == "RULE-SET"@);
    assert(ls[29] == "AND"@);
    assert(ls[30] == "OR"@);
    assert(ls[31] == "NOT"@);
    assert(ls[32] == "MATCH"@);
    reveal_strlit("");
}

/// Every rule type the editor offers comes with a non-empty example payload,
/// except `MATCH`, which takes none; a type it does not offer has no example.
#[verifier::rlimit(100)]
pub proof fn law_rule_examples(windows: bool, kind: Seq<char>)
    ensures
        split_char(RULE_TYPES@, ',') == rule_types_v(),
        forall|i: int|
            0 <= i < rule_types_v().len() ==> (rule_example_v(#[trigger] rule_types_v()[i], windows).len() == 0
                <==> rule_types_v()[i] == "MATCH"@),
        !rule_types_v().contains(kind) ==> rule_example_v(kind, windows).len() == 0,
{
    assert(rule_example_v("DOMAIN"@, windows).len() > 0) by {
        reveal_strlit("DOMAIN");
        reveal_strlit("example.com");
    }
    assert(rule_example_v("DOMAIN-SUFFIX"@, windows).len() > 0) by {
        reveal_strlit("DOMAIN");
        reveal_strlit("DOMAIN-SUFFIX");
        reveal_strlit("example.com");
    }
    assert(rule_example_v("DOMAIN-KEYWORD"@, windows).len() > 0) by {
        reveal_strlit("DOMAIN");
        reveal_strlit("DOMAIN-SUFFIX");
        reveal_strlit("DOMAIN-KEYWORD");
        reveal_strlit("example");
    }
    assert(rule_example_v("DOMAIN-REGEX"@, windows).len() > 0) by {
        reveal_strlit("DOMAIN");
        reveal_strlit("DOMAIN-SUFFIX");
        reveal_strlit("DOMAIN-KEYWORD");
        reveal_strlit("DOMAIN-REGEX");
        reveal_strlit("example.*");
    }
    assert(rule_example_v("GEOSITE"@, windows).len() > 0) by {
        reveal_strlit("DOMAIN");
        reveal_strlit("DOMAIN-SUFFIX");
        reveal_strlit("DOMAIN-KEYWORD");
        reveal_strlit("DOMAIN-REGEX");
        reveal_strlit("GEOSITE");
        reveal_strlit("youtube");
    }
    assert(rule_example_v("GEOIP"@, windows).len() > 0) by {
        reveal_strlit("DOMAIN");
        reveal_strlit("DOMAIN-SUFFIX");
        reveal_strlit("DOMAIN-KEYWORD");
        reveal_strlit("DOMAIN-REGEX");
        reveal_strlit("GEOSITE");
        reveal_strlit("GEOIP");
        reveal_strlit("CN");
    }
    assert(rule_example_v("SRC-GEOIP"@, windows).len() > 0) by {
        reveal_strlit("DOMAIN");
        reveal_strlit("DOMAIN-SUFFIX");
        reveal_strlit("DOMAIN-KEYWORD");
        reveal_strlit("DOMAIN-REGEX");
        reveal_strlit("GEOSITE");
        reveal_strlit("GEOIP");
        reveal_strlit("SRC-GEOIP");
        reveal_strlit("CN");
    }
    assert(rule_example_v("IP-ASN"@, windows).len() > 0) by {
        reveal_strlit("DOMAIN");
        reveal_strlit("DOMAIN-SUFFIX");
        reveal_strlit("DOMAIN-KEYWORD");
        reveal_strlit("DOMAIN-REGEX");
        reveal_strlit("GEOSITE");
        reveal_strlit("GEOIP");
        reveal_strlit("SRC-GEOIP");
        reveal_strlit("IP-ASN");
        reveal_strlit("13335");
    }
    assert(rule_example_v("SRC-IP-ASN"@, windows).len() > 0) by {
        reveal_strlit("DOMAIN");
        reveal_strlit("DOMAIN-SUFFIX");
        reveal_strlit("DOMAIN-KEYWORD");
        reveal_strlit("DOMAIN-REGEX");
        reveal_strlit("GEOSITE");
        reveal_strlit("GEOIP");
        reveal_strlit("SRC-GEOIP");
        reveal_strlit("IP-ASN");
        reveal_strlit("SRC-IP-ASN");
        reveal_strlit("9808");
    }
    assert(rule_example_v("IP-CIDR"@, windows).len() > 0) by {
        reveal_strlit("DOMAIN");
        reveal_strlit("DOMAIN-SUFFIX");
        reveal_strlit("DOMAIN-KEYWORD");
        reveal_strlit("DOMAIN-REGEX");
        reveal_strlit("GEOSITE");
        reveal_strlit("GEOIP");
        reveal_strlit("SRC-GEOIP");
        reveal_strlit("IP-ASN");
        reveal_strlit("SRC-IP-ASN");
        reveal_strlit("IP-CIDR");
        reveal_strlit("127.0.0.0/8");
    }
    assert(rule_example_v("IP-CIDR6"@, windows).len() > 0) by {
        reveal_strlit("DOMAIN");
        reveal_strlit("DOMAIN-SUFFIX");
        reveal_strlit("DOMAIN-KEYWORD");
        reveal_strlit("DOMAIN-REGEX");
        reveal_strlit("GEOSITE");
        reveal_strlit("GEOIP");
        reveal_strlit("SRC-GEOIP");
        reveal_strlit("IP-ASN");
        reveal_strlit("SRC-IP-ASN");
        reveal_strlit("IP-CIDR");
        reveal_strlit("IP-CIDR6");
        reveal_strlit("2620:0:2d0:200::7/32");
    }
    assert(rule_example_v("SRC-IP-CIDR"@, windows).len() > 0) by {
        reveal_strlit("DOMAIN");
        reveal_strlit("DOMAIN-SUFFIX");
        reveal_strlit("DOMAIN-KEYWORD");
        reveal_strlit("DOMAIN-REGEX");
        reveal_strlit("GEOSITE");
        reveal_strlit("GEOIP");
        reveal_strlit("SRC-GEOIP");
        reveal_strlit("IP-ASN");
        reveal_strlit("SRC-IP-ASN");
        reveal_strlit("IP-CIDR");
        reveal_strlit("IP-CIDR6");
        reveal_strlit("SRC-IP-CIDR");
        reveal_strlit("192.168.1.201/32");
    }
    assert(rule_example_v("IP-SUFFIX"@, windows).len() > 0) by {
        reveal_strlit("DOMAIN");
        reveal_strlit("DOMAIN-SUFFIX");
        reveal_strlit("DOMAIN-KEYWORD");
        reveal_strlit("DOMAIN-REGEX");
        reveal_strlit("GEOSITE");
        reveal_strlit("GEOIP");
        reveal_strlit("SRC-GEOIP");
        reveal_strlit("IP-ASN");
        reveal_strlit("SRC-IP-ASN");
        reveal_strlit("IP-CIDR");
        reveal_strlit("IP-CIDR6");
        reveal_strlit("SRC-IP-CIDR");
        reveal_strlit("IP-SUFFIX");
        reveal_strlit("8.8.8.8/24");
    }
    assert(rule_example_v("SRC-IP-SUFFIX"@, windows).len() > 0) by {
        reveal_strlit("DOMAIN");
        reveal_strlit("DOMAIN-SUFFIX");
        reveal_strlit("DOMAIN-KEYWORD");
        reveal_strlit("DOMAIN-REGEX");
        reveal_strlit("GEOSITE");
        reveal_strlit("GEOIP");
        reveal_strlit("SRC-GEOIP");
        reveal_strlit("IP-ASN");
        reveal_strlit("SRC-IP-ASN");
        reveal_strlit("IP-CIDR");
        reveal_strlit("IP-CIDR6");
        reveal_strlit("SRC-IP-CIDR");
        reveal_strlit("IP-SUFFIX");
        reveal_strlit("SRC-IP-SUFFIX");
        reveal_strlit("192.168.1.201/8");
    }
    assert(rule_example_v("SRC-PORT"@, windows).len() > 0) by {
        reveal_strlit("DOMAIN");
        reveal_strlit("DOMAIN-SUFFIX");
        reveal_strlit("DOMAIN-KEYWORD");
        reveal_strlit("DOMAIN-REGEX");
        reveal_strlit("GEOSITE");
        reveal_strlit("GEOIP");
        reveal_strlit("SRC-GEOIP");
        reveal_strlit("IP-ASN");
        reveal_strlit("SRC-IP-ASN");
        reveal_strlit("IP-CIDR");
        reveal_strlit("IP-CIDR6");
        reveal_strlit("SRC-IP-CIDR");
        reveal_strlit("IP-SUFFIX");
        reveal_strlit("SRC-IP-SUFFIX");
        reveal_strlit("SRC-PORT");
        reveal_strlit("7777");
    }
    assert(rule_example_v("DST-PORT"@, windows).len() > 0) by {
        reveal_strlit("DOMAIN");
        reveal_strlit("DOMAIN-SUFFIX");
        reveal_strlit("DOMAIN-KEYWORD");
        reveal_strlit("DOMAIN-REGEX");
        reveal_strlit("GEOSITE");
        reveal_strlit("GEOIP");
        reveal_strlit("SRC-GEOIP");
        reveal_strlit("IP-ASN");
        reveal_strlit("SRC-IP-ASN");
        reveal_strlit("IP-CIDR");
        reveal_strlit("IP-CIDR6");
        reveal_strlit("SRC-IP-CIDR");
        reveal_strlit("IP-SUFFIX");
        reveal_strlit("SRC-IP-SUFFIX");
        reveal_strlit("SRC-PORT");
        reveal_strlit("DST-PORT");
        reveal_strlit("80");
    }
    assert(rule_example_v("IN-PORT"@, windows).len() > 0) by {
        reveal_strlit("DOMAIN");
        reveal_strlit("DOMAIN-SUFFIX");
        reveal_strlit("DOMAIN-KEYWORD");
        reveal_strlit("DOMAIN-REGEX");
        reveal_strlit("GEOSITE");
        reveal_strlit("GEOIP");
        reveal_strlit("SRC-GEOIP");
        reveal_strlit("IP-ASN");
        reveal_strlit("SRC-IP-ASN");
        reveal_strlit("IP-CIDR");
        reveal_strlit("IP-CIDR6");
        reveal_strlit("SRC-IP-CIDR");
        reveal_strlit("IP-SUFFIX");
        reveal_strlit("SRC-IP-SUFFIX");
        reveal_strlit("SRC-PORT");
        reveal_strlit("DST-PORT");
        reveal_strlit("IN-PORT");
        reveal_strlit("7897");
    }
    assert(rule_example_v("DSCP"@, windows).len() > 0) by {
        reveal_strlit("DOMAIN");
        reveal_strlit("DOMAIN-SUFFIX");
        reveal_strlit("DOMAIN-KEYWORD");
        reveal_strlit("DOMAIN-REGEX");
        reveal_strlit("GEOSITE");
        reveal_strlit("GEOIP");
        reveal_strlit("SRC-GEOIP");
        reveal_strlit("IP-ASN");
        reveal_strlit("SRC-IP-ASN");
        reveal_strlit("IP-CIDR");
        reveal_strlit("IP-CIDR6");
        reveal_strlit("SRC-IP-CIDR");
        reveal_strlit("IP-SUFFIX");
        reveal_strlit("SRC-IP-SUFFIX");
        reveal_strlit("SRC-PORT");
        reveal_strlit("DST-PORT");
        reveal_strlit("IN-PORT");
        reveal_strlit("DSCP");
        reveal_strlit("4");
    }
    assert(rule_example_v("PROCESS-NAME"@, windows).len() > 0) by {
        reveal_strlit("DOMAIN");
        reveal_strlit("DOMAIN-SUFFIX");
        reveal_strlit("DOMAIN-KEYWORD");
        reveal_strlit("DOMAIN-REGEX");
        reveal_strlit("GEOSITE");
        reveal_strlit("GEOIP");
        reveal_strlit("SRC-GEOIP");
        reveal_strlit("IP-ASN");
        reveal_strlit("SRC-IP-ASN");
        reveal_strlit("IP-CIDR");
        reveal_strlit("IP-CIDR6");
        reveal_strlit("SRC-IP-CIDR");
        reveal_strlit("IP-SUFFIX");
        reveal_strlit("SRC-IP-SUFFIX");
        reveal_strlit("SRC-PORT");
        reveal_strlit("DST-PORT");
        reveal_strlit("IN-PORT");
        reveal_strlit("DSCP");
        reveal_strlit("PROCESS-NAME");
        reveal_strlit("chrome.exe");
        reveal_strlit("curl");
    }
    assert(rule_example_v("PROCESS-PATH"@, windows).len() > 0) by {
        reveal_strlit("DOMAIN");
        reveal_strlit("DOMAIN-SUFFIX");
        reveal_strlit("DOMAIN-KEYWORD");
        reveal_strlit("DOMAIN-REGEX");
        reveal_strlit("GEOSITE");
        reveal_strlit("GEOIP");
        reveal_strlit("SRC-GEOIP");
        reveal_strlit("IP-ASN");
        reveal_strlit("SRC-IP-ASN");
        reveal_strlit("IP-CIDR");
        reveal_strlit("IP-CIDR6");
        reveal_strlit("SRC-IP-CIDR");
        reveal_strlit("IP-SUFFIX");
        reveal_strlit("SRC-IP-SUFFIX");
        reveal_strlit("SRC-PORT");
        reveal_strlit("DST-PORT");
        reveal_strlit("IN-PORT");
        reveal_strlit("DSCP");
        reveal_strlit("PROCESS-NAME");
        reveal_strlit("PROCESS-PATH");
        reveal_strlit("C:\\Program Files\\Google\\Chrome\\Application\\chrome.exe");
        reveal_strlit("/usr/bin/wget");
    }
    assert(rule_example_v("PROCESS-NAME-REGEX"@, windows).len() > 0) by {
        reveal_strlit("DOMAIN");
        reveal_strlit("DOMAIN-SUFFIX");
        reveal_strlit("DOMAIN-KEYWORD");
        reveal_strlit("DOMAIN-REGEX");
        reveal_strlit("GEOSITE");
        reveal_strlit("GEOIP");
        reveal_strlit("SRC-GEOIP");
        reveal_strlit("IP-ASN");
        reveal_strlit("SRC-IP-ASN");
        reveal_strlit("IP-CIDR");
        reveal_strlit("IP-CIDR6");
        reveal_strlit("SRC-IP-CIDR");
        reveal_strlit("IP-SUFFIX");
        reveal_strlit("SRC-IP-SUFFIX");
        reveal_strlit("SRC-PORT");
        reveal_strlit("DST-PORT");
        reveal_strlit("IN-PORT");
        reveal_strlit("DSCP");
        reveal_strlit("PROCESS-NAME");
        reveal_strlit("PROCESS-PATH");
        reveal_strlit("PROCESS-NAME-REGEX");
        reveal_strlit(".*telegram.*");
    }
    assert(rule_example_v("PROCESS-PATH-REGEX"@, windows).len() > 0) by {
        reveal_strlit("DOMAIN");
        reveal_strlit("DOMAIN-SUFFIX");
        reveal_strlit("DOMAIN-KEYWORD");
        reveal_strlit("DOMAIN-REGEX");
        reveal_strlit("GEOSITE");
        reveal_strlit("GEOIP");
        reveal_strlit("SRC-GEOIP");
        reveal_strlit("IP-ASN");
        reveal_strlit("SRC-IP-ASN");
        reveal_strlit("IP-CIDR");
        reveal_strlit("IP-CIDR6");
        reveal_strlit("SRC-IP-CIDR");
        reveal_strlit("IP-SUFFIX");
        reveal_strlit("SRC-IP-SUFFIX");
        reveal_strlit("SRC-PORT");
        reveal_strlit("DST-PORT");
        reveal_strlit("IN-PORT");
        reveal_strlit("DSCP");
        reveal_strlit("PROCESS-NAME");
        reveal_strlit("PROCESS-PATH");
        reveal_strlit("PROCESS-NAME-REGEX");
        reveal_strlit("PROCESS-PATH-REGEX");
        reveal_strlit("(?i).*Application\\chrome.*");
        reveal_strlit(".*bin/wget");
    }
    assert(rule_example_v("NETWORK"@, windows).len() > 0) by {
        reveal_strlit("DOMAIN");
        reveal_strlit("DOMAIN-SUFFIX");
        reveal_strlit("DOMAIN-KEYWORD");
        reveal_strlit("DOMAIN-REGEX");
        reveal_strlit("GEOSITE");
        reveal_strlit("GEOIP");
        reveal_strlit("SRC-GEOIP");
        reveal_strlit("IP-ASN");
        reveal_strlit("SRC-IP-ASN");
        reveal_strlit("IP-CIDR");
        reveal_strlit("IP-CIDR6");
        reveal_strlit("SRC-IP-CIDR");
        reveal_strlit("IP-SUFFIX");
        reveal_strlit("SRC-IP-SUFFIX");
        reveal_strlit("SRC-PORT");
        reveal_strlit("DST-PORT");
        reveal_strlit("IN-PORT");
        reveal_strlit("DSCP");
        reveal_strlit("PROCESS-NAME");
        reveal_strlit("PROCESS-PATH");
        reveal_strlit("PROCESS-NAME-REGEX");
        reveal_strlit("PROCESS-PATH-REGEX");
        reveal_strlit("NETWORK");
        reveal_strlit("udp");
    }
    assert(rule_example_v("UID"@, windows).len() > 0) by {
        reveal_strlit("DOMAIN");
        reveal_strlit("DOMAIN-SUFFIX");
        reveal_strlit("DOMAIN-KEYWORD");
        reveal_strlit("DOMAIN-REGEX");
        reveal_strlit("GEOSITE");
        reveal_strlit("GEOIP");
        reveal_strlit("SRC-GEOIP");
        reveal_strlit("IP-ASN");
        reveal_strlit("SRC-IP-ASN");
        reveal_strlit("IP-CIDR");
        reveal_strlit("IP-CIDR6");
        reveal_strlit("SRC-IP-CIDR");
        reveal_strlit("IP-SUFFIX");
        reveal_strlit("SRC-IP-SUFFIX");
        reveal_strlit("SRC-PORT");
        reveal_strlit("DST-PORT");
        reveal_strlit("IN-PORT");
        reveal_strlit("DSCP");
        reveal_strlit("PROCESS-NAME");
        reveal_strlit("PROCESS-PATH");
        reveal_strlit("PROCESS-NAME-REGEX");
        reveal_strlit("PROCESS-PATH-REGEX");
        reveal_strlit("NETWORK");
        reveal_strlit("UID");
        reveal_strlit("1001");
    }
    assert(rule_example_v("IN-TYPE"@, windows).len() > 0) by {
        reveal_strlit("DOMAIN");
        reveal_strlit("DOMAIN-SUFFIX");
        reveal_strlit("DOMAIN-KEYWORD");
        reveal_strlit("DOMAIN-REGEX");
        reveal_strlit("GEOSITE");
        reveal_strlit("GEOIP");
        reveal_strlit("SRC-GEOIP");
        reveal_strlit("IP-ASN");
        reveal_strlit("SRC-IP-ASN");
        reveal_strlit("IP-CIDR");
        reveal_strlit("IP-CIDR6");
        reveal_strlit("SRC-IP-CIDR");
        reveal_strlit("IP-SUFFIX");
        reveal_strlit("SRC-IP-SUFFIX");
        reveal_strlit("SRC-PORT");
        reveal_strlit("DST-PORT");
        reveal_strlit("IN-PORT");
        reveal_strlit("DSCP");
        reveal_strlit("PROCESS-NAME");
        reveal_strlit("PROCESS-PATH");
        reveal_strlit("PROCESS-NAME-REGEX");
        reveal_strlit("PROCESS-PATH-REGEX");
        reveal_strlit("NETWORK");
        reveal_strlit("UID");
        reveal_strlit("IN-TYPE");
        reveal_strlit("SOCKS/HTTP");
    }
    assert(rule_example_v("IN-USER"@, windows).len() > 0) by {
        reveal_strlit("DOMAIN");
        reveal_strlit("DOMAIN-SUFFIX");
        reveal_strlit("DOMAIN-KEYWORD");
        reveal_strlit("DOMAIN-REGEX");
        reveal_strlit("GEOSITE");
        reveal_strlit("GEOIP");
        reveal_strlit("SRC-GEOIP");
        reveal_strlit("IP-ASN");
        reveal_strlit("SRC-IP-ASN");
        reveal_strlit("IP-CIDR");
        reveal_strlit("IP-CIDR6");
        reveal_strlit("SRC-IP-CIDR");
        reveal_strlit("IP-SUFFIX");
        reveal_strlit("SRC-IP-SUFFIX");
        reveal_strlit("SRC-PORT");
        reveal_strlit("DST-PORT");
        reveal_strlit("IN-PORT");
        reveal_strlit("DSCP");
        reveal_strlit("PROCESS-NAME");
        reveal_strlit("PROCESS-PATH");
        reveal_strlit("PROCESS-NAME-REGEX");
        reveal_strlit("PROCESS-PATH-REGEX");
        reveal_strlit("NETWORK");
        reveal_strlit("UID");
        reveal_strlit("IN-TYPE");
        reveal_strlit("IN-USER");
        reveal_strlit("mihomo");
    }
    assert(rule_example_v("IN-NAME"@, windows).len() > 0) by {
        reveal_strlit("DOMAIN");
        reveal_strlit("DOMAIN-SUFFIX");
        reveal_strlit("DOMAIN-KEYWORD");
        reveal_strlit("DOMAIN-REGEX");
        reveal_strlit("GEOSITE");
        reveal_strlit("GEOIP");
        reveal_strlit("SRC-GEOIP");
        reveal_strlit("IP-ASN");
        reveal_strlit("SRC-IP-ASN");
        reveal_strlit("IP-CIDR");
        reveal_strlit("IP-CIDR6");
        reveal_strlit("SRC-IP-CIDR");
        reveal_strlit("IP-SUFFIX");
        reveal_strlit("SRC-IP-SUFFIX");
        reveal_strlit("SRC-PORT");
        reveal_strlit("DST-PORT");
        reveal_strlit("IN-PORT");
        reveal_strlit("DSCP");
        reveal_strlit("PROCESS-NAME");
        reveal_strlit("PROCESS-PATH");
        reveal_strlit("PROCESS-NAME-REGEX");
        reveal_strlit("PROCESS-PATH-REGEX");
        reveal_strlit("NETWORK");
        reveal_strlit("UID");
        reveal_strlit("IN-TYPE");
        reveal_strlit("IN-USER");
        reveal_strlit("IN-NAME");
        reveal_strlit("ss");
    }
    assert(rule_example_v("SUB-RULE"@, windows).len() > 0) by {
        reveal_strlit("DOMAIN");
        reveal_strlit("DOMAIN-SUFFIX");
        reveal_strlit("DOMAIN-KEYWORD");
        reveal_strlit("DOMAIN-REGEX");
        reveal_strlit("GEOSITE");
        reveal_strlit("GEOIP");
        reveal_strlit("SRC-GEOIP");
        reveal_strlit("IP-ASN");
        reveal_strlit("SRC-IP-ASN");
        reveal_strlit("IP-CIDR");
        reveal_strlit("IP-CIDR6");
        reveal_strlit("SRC-IP-CIDR");
        reveal_strlit("IP-SUFFIX");
        reveal_strlit("SRC-IP-SUFFIX");
        reveal_strlit("SRC-PORT");
        reveal_strlit("DST-PORT");
        reveal_strlit("IN-PORT");
        reveal_strlit("DSCP");
        reveal_strlit("PROCESS-NAME");
        reveal_strlit("PROCESS-PATH");
        reveal_strlit("PROCESS-NAME-REGEX");
        reveal_strlit("PROCESS-PATH-REGEX");
        reveal_strlit("NETWORK");
        reveal_strlit("UID");
        reveal_strlit("IN-TYPE");
        reveal_strlit("IN-USER");
        reveal_strlit("IN-NAME");
        reveal_strlit("SUB-RULE");
        reveal_strlit("(NETWORK,tcp)");
    }
    assert(rule_example_v("RULE-SET"@, windows).len() > 0) by {
        reveal_strlit("DOMAIN");
        reveal_strlit("DOMAIN-SUFFIX");
        reveal_strlit("DOMAIN-KEYWORD");
        reveal_strlit("DOMAIN-REGEX");
        reveal_strlit("GEOSITE");
        reveal_strlit("GEOIP");
        reveal_strlit("SRC-GEOIP");
        reveal_strlit("IP-ASN");
        reveal_strlit("SRC-IP-ASN");
        reveal_strlit("IP-CIDR");
        reveal_strlit("IP-CIDR6");
        reveal_strlit("SRC-IP-CIDR");
        reveal_strlit("IP-SUFFIX");
        reveal_strlit("SRC-IP-SUFFIX");
        reveal_strlit("SRC-PORT");
        reveal_strlit("DST-PORT");
        reveal_strlit("IN-PORT");
        reveal_strlit("DSCP");
        reveal_strlit("PROCESS-NAME");
        reveal_strlit("PROCESS-PATH");
        reveal_strlit("PROCESS-NAME-REGEX");
        reveal_strlit("PROCESS-PATH-REGEX");
        reveal_strlit("NETWORK");
        reveal_strlit("UID");
        reveal_strlit("IN-TYPE");
        reveal_strlit("IN-USER");
        reveal_strlit("IN-NAME");
        reveal_strlit("SUB-RULE");
        reveal_strlit("RULE-SET");
        reveal_strlit("providername");
    }
    assert(rule_example_v("AND"@, windows).len() > 0) by {
        reveal_strlit("DOMAIN");
        reveal_strlit("DOMAIN-SUFFIX");
        reveal_strlit("DOMAIN-KEYWORD");
        reveal_strlit("DOMAIN-REGEX");
        reveal_strlit("GEOSITE");
        reveal_strlit("GEOIP");
        reveal_strlit("SRC-GEOIP");
        reveal_strlit("IP-ASN");
        reveal_strlit("SRC-IP-ASN");
        reveal_strlit("IP-CIDR");
        reveal_strlit("IP-CIDR6");
        reveal_strlit("SRC-IP-CIDR");
        reveal_strlit("IP-SUFFIX");
        reveal_strlit("SRC-IP-SUFFIX");
        reveal_strlit("SRC-PORT");
        reveal_strlit("DST-PORT");
        reveal_strlit("IN-PORT");
        reveal_strlit("DSCP");
        reveal_strlit("PROCESS-NAME");
        reveal_strlit("PROCESS-PATH");
        reveal_strlit("PROCESS-NAME-REGEX");
        reveal_strlit("PROCESS-PATH-REGEX");
        reveal_strlit("NETWORK");
        reveal_strlit("UID");
        reveal_strlit("IN-TYPE");
        reveal_strlit("IN-USER");
        reveal_strlit("IN-NAME");
        reveal_strlit("SUB-RULE");
        reveal_strlit("RULE-SET");
        reveal_strlit("AND");
        reveal_strlit("((DOMAIN,baidu.com),(NETWORK,UDP))");
    }
    assert(rule_example_v("OR"@, windows).len() > 0) by {
        reveal_strlit("DOMAIN");
        reveal_strlit("DOMAIN-SUFFIX");
        reveal_strlit("DOMAIN-KEYWORD");
        reveal_strlit("DOMAIN-REGEX");
        reveal_strlit("GEOSITE");
        reveal_strlit("GEOIP");
        reveal_strlit("SRC-GEOIP");
        reveal_strlit("IP-ASN");
        reveal_strlit("SRC-IP-ASN");
        reveal_strlit("IP-CIDR");
        reveal_strlit("IP-CIDR6");
        reveal_strlit("SRC-IP-CIDR");
        reveal_strlit("IP-SUFFIX");
        reveal_strlit("SRC-IP-SUFFIX");
        reveal_strlit("SRC-PORT");
        reveal_strlit("DST-PORT");
        reveal_strlit("IN-PORT");
        reveal_strlit("DSCP");
        reveal_strlit("PROCESS-NAME");
        reveal_strlit("PROCESS-PATH");
        reveal_strlit("PROCESS-NAME-REGEX");
        reveal_strlit("PROCESS-PATH-REGEX");
        reveal_strlit("NETWORK");
        reveal_strlit("UID");
        reveal_strlit("IN-TYPE");
        reveal_strlit("IN-USER");
        reveal_strlit("IN-NAME");
        reveal_strlit("SUB-RULE");
        reveal_strlit("RULE-SET");
        reveal_strlit("AND");
        reveal_strlit("OR");
        reveal_strlit("((NETWORK,UDP),(DOMAIN,baidu.com))");
    }
    assert(rule_example_v("NOT"@, windows).len() > 0) by {
        reveal_strlit("DOMAIN");
        reveal_strlit("DOMAIN-SUFFIX");
        reveal_strlit("DOMAIN-KEYWORD");
        reveal_strlit("DOMAIN-REGEX");
        reveal_strlit("GEOSITE");
        reveal_strlit("GEOIP");
        reveal_strlit("SRC-GEOIP");
        reveal_strlit("IP-ASN");
        reveal_strlit("SRC-IP-ASN");
        reveal_strlit("IP-CIDR");
        reveal_strlit("IP-CIDR6");
        reveal_strlit("SRC-IP-CIDR");
        reveal_strlit("IP-SUFFIX");
        reveal_strlit("SRC-IP-SUFFIX");
        reveal_strlit("SRC-PORT");
        reveal_strlit("DST-PORT");
        reveal_strlit("IN-PORT");
        reveal_strlit("DSCP");
        reveal_strlit("PROCESS-NAME");
        reveal_strlit("PROCESS-PATH");
        reveal_strlit("PROCESS-NAME-REGEX");
        reveal_strlit("PROCESS-PATH-REGEX");
        reveal_strlit("NETWORK");
        reveal_strlit("UID");
        reveal_strlit("IN-TYPE");
        reveal_strlit("IN-USER");
        reveal_strlit("IN-NAME");
        reveal_strlit("SUB-RULE");
        reveal_strlit("RULE-SET");
        reveal_strlit("AND");
        reveal_strlit("OR");
        reveal_strlit("NOT");
        reveal_strlit("((DOMAIN,baidu.com))");
    }
    assert(rule_example_v("MATCH"@, windows).len() == 0) by {
        reveal_strlit("MATCH");
        reveal_strlit("");
        assert("DOMAIN"@ != "MATCH"@) by {
            reveal_strlit("DOMAIN");
            reveal_strlit("MATCH");
            assert("DOMAIN"@[0] != "MATCH"@[0] || "DOMAIN"@.len() != "MATCH"@.len());
        }
        assert("DOMAIN-SUFFIX"@ != "MATCH"@) by {
            reveal_strlit("DOMAIN-SUFFIX");
            reveal_strlit("MATCH");
            assert("DOMAIN-SUFFIX"@[0] != "MATCH"@[0] || "DOMAIN-SUFFIX"@.len() != "MATCH"@.len());
        }
        assert("DOMAIN-KEYWORD"@ != "MATCH"@) by {
            reveal_strlit("DOMAIN-KEYWORD");
            reveal_strlit("MATCH");
            assert("DOMAIN-KEYWORD"@[0] != "MATCH"@[0] || "DOMAIN-KEYWORD"@.len() != "MATCH"@.len());
        }
        assert("DOMAIN-REGEX"@ != "MATCH"@) by {
            reveal_strlit("DOMAIN-REGEX");
            reveal_strlit("MATCH");
            assert("DOMAIN-REGEX"@[0] != "MATCH"@[0] || "DOMAIN-REGEX"@.len() != "MATCH"@.len());
        }
        assert("GEOSITE"@ != "MATCH"@) by {
            reveal_strlit("GEOSITE");
            reveal_strlit("MATCH");
            assert("GEOSITE"@[0] != "MATCH"@[0] || "GEOSITE"@.len() != "MATCH"@.len());
        }
        assert("GEOIP"@ != "MATCH"@) by {
            reveal_strlit("GEOIP");
            reveal_strlit("MATCH");
            assert("GEOIP"@[0] != "MATCH"@[0] || "GEOIP"@.len() != "MATCH"@.len());
        }
        assert("SRC-GEOIP"@ != "MATCH"@) by {
            reveal_strlit("SRC-GEOIP");
            reveal_strlit("MATCH");
            assert("SRC-GEOIP"@[0] != "MATCH"@[0] || "SRC-GEOIP"@.len() != "MATCH"@.len());
        }
        assert("IP-ASN"@ != "MATCH"@) by {
            reveal_strlit("IP-ASN");
            reveal_strlit("MATCH");
            assert("IP-ASN"@[0] != "MATCH"@[0] || "IP-ASN"@.len() != "MATCH"@.len());
        }
        assert("SRC-IP-ASN"@ != "MATCH"@) by {
            reveal_strlit("SRC-IP-ASN");
            reveal_strlit("MATCH");
            assert("SRC-IP-ASN"@[0] != "MATCH"@[0] || "SRC-IP-ASN"@.len() != "MATCH"@.len());
        }
        assert("IP-CIDR"@ != "MATCH"@) by {
            reveal_strlit("IP-CIDR");
            reveal_strlit("MATCH");
            assert("IP-CIDR"@[0] != "MATCH"@[0] || "IP-CIDR"@.len() != "MATCH"@.len());
        }
        assert("IP-CIDR6"@ != "MATCH"@) by {
            reveal_strlit("IP-CIDR6");
            reveal_strlit("MATCH");
            assert("IP-CIDR6"@[0] != "MATCH"@[0] || "IP-CIDR6"@.len() != "MATCH"@.len());
        }
        assert("SRC-IP-CIDR"@ != "MATCH"@) by {
            reveal_strlit("SRC-IP-CIDR");
            reveal_strlit("MATCH");
            assert("SRC-IP-CIDR"@[0] != "MATCH"@[0] || "SRC-IP-CIDR"@.len() != "MATCH"@.len());
        }
        assert("IP-SUFFIX"@ != "MATCH"@) by {
            reveal_strlit("IP-SUFFIX");
            reveal_strlit("MATCH");
            assert("IP-SUFFIX"@[0] != "MATCH"@[0] || "IP-SUFFIX"@.len() != "MATCH"@.len());
        }
        assert("SRC-IP-SUFFIX"@ != "MATCH"@) by {
            reveal_strlit("SRC-IP-SUFFIX");
            reveal_strlit("MATCH");
            assert("SRC-IP-SUFFIX"@[0] != "MATCH"@[0] || "SRC-IP-SUFFIX"@.len() != "MATCH"@.len());
        }
        assert("SRC-PORT"@ != "MATCH"@) by {
            reveal_strlit("SRC-PORT");
            reveal_strlit("MATCH");
            assert("SRC-PORT"@[0] != "MATCH"@[0] || "SRC-PORT"@.len() != "MATCH"@.len());
        }
        assert("DST-PORT"@ != "MATCH"@) by {
            reveal_strlit("DST-PORT");
            reveal_strlit("MATCH");
            assert("DST-PORT"@[0] != "MATCH"@[0] || "DST-PORT"@.len() != "MATCH"@.len());
        }
        assert("IN-PORT"@ != "MATCH"@) by {
            reveal_strlit("IN-PORT");
            reveal_strlit("MATCH");
            assert("IN-PORT"@[0] != "MATCH"@[0] || "IN-PORT"@.len() != "MATCH"@.len());
        }
        assert("DSCP"@ != "MATCH"@) by {
            reveal_strlit("DSCP");
            reveal_strlit("MATCH");
            assert("DSCP"@[0] != "MATCH"@[0] || "DSCP"@.len() != "MATCH"@.len());
        }
        assert("PROCESS-NAME"@ != "MATCH"@) by {
            reveal_strlit("PROCESS-NAME");
            reveal_strlit("MATCH");
            assert("PROCESS-NAME"@[0] != "MATCH"@[0] || "PROCESS-NAME"@.len() != "MATCH"@.len());
        }
        assert("PROCESS-PATH"@ != "MATCH"@) by {
            reveal_strlit("PROCESS-PATH");
            reveal_strlit("MATCH");
            assert("PROCESS-PATH"@[0] != "MATCH"@[0] || "PROCESS-PATH"@.len() != "MATCH"@.len());
        }
        assert("PROCESS-NAME-REGEX"@ != "MATCH"@) by {
            reveal_strlit("PROCESS-NAME-REGEX");
            reveal_strlit("MATCH");
            assert("PROCESS-NAME-REGEX"@[0] != "MATCH"@[0] || "PROCESS-NAME-REGEX"@.len() != "MATCH"@.len());
        }
        assert("PROCESS-PATH-REGEX"@ != "MATCH"@) by {
            reveal_strlit("PROCESS-PATH-REGEX");
            reveal_strlit("MATCH");
            assert("PROCESS-PATH-REGEX"@[0] != "MATCH"@[0] || "PROCESS-PATH-REGEX"@.len() != "MATCH"@.len());
        }
        assert("NETWORK"@ != "MATCH"@) by {
            reveal_strlit("NETWORK");
            reveal_strlit("MATCH");
            assert("NETWORK"@[0] != "MATCH"@[0] || "NETWORK"@.len() != "MATCH"@.len());
        }
        assert("UID"@ != "MATCH"@) by {
            reveal_strlit("UID");
            reveal_strlit("MATCH");
            assert("UID"@[0] != "MATCH"@[0] || "UID"@.len() != "MATCH"@.len());
        }
        assert("IN-TYPE"@ != "MATCH"@) by {
            reveal_strlit("IN-TYPE");
            reveal_strlit("MATCH");
            assert("IN-TYPE"@[0] != "MATCH"@[0] || "IN-TYPE"@.len() != "MATCH"@.len());
        }
        assert("IN-USER"@ != "MATCH"@) by {
            reveal_strlit("IN-USER");
            reveal_strlit("MATCH");
            assert("IN-USER"@[0] != "MATCH"@[0] || "IN-USER"@.len() != "MATCH"@.len());
        }
        assert("IN-NAME"@ != "MATCH"@) by {
            reveal_strlit("IN-NAME");
            reveal_strlit("MATCH");
            assert("IN-NAME"@[0] != "MATCH"@[0] || "IN-NAME"@.len() != "MATCH"@.len());
        }
        assert("SUB-RULE"@ != "MATCH"@) by {
            reveal_strlit("SUB-RULE");
            reveal_strlit("MATCH");
            assert("SUB-RULE"@[0] != "MATCH"@[0] || "SUB-RULE"@.len() != "MATCH"@.len());
        }
        assert("RULE-SET"@ != "MATCH"@) by {
            reveal_strlit("RULE-SET");
            reveal_strlit("MATCH");
            assert("RULE-SET"@[0] != "MATCH"@[0] || "RULE-SET"@.len() != "MATCH"@.len());
        }
        assert("AND"@ != "MATCH"@) by {
            reveal_strlit("AND");
            reveal_strlit("MATCH");
            assert("AND"@[0] != "MATCH"@[0] || "AND"@.len() != "MATCH"@.len());
        }
        assert("OR"@ != "MATCH"@) by {
            reveal_strlit("OR");
            reveal_strlit("MATCH");
            assert("OR"@[0] != "MATCH"@[0] || "OR"@.len() != "MATCH"@.len());
        }
        assert("NOT"@ != "MATCH"@) by {
            reveal_strlit("NOT");
            reveal_strlit("MATCH");
            assert("NOT"@[0] != "MATCH"@[0] || "NOT"@.len() != "MATCH"@.len());
        }
    }
    let ls = rule_types_v();
    assert forall|i: int| 0 <= i < ls.len() implies (rule_example_v(#[trigger] ls[i], windows).len() == 0 <==> ls[i]
        == "MATCH"@) by {
        if i < 32 {
            assert(ls[i] != ls[32]) by {
                reveal_strlit("MATCH");
                reveal_strlit("DOMAIN");
                reveal_strlit("DOMAIN-SUFFIX");
                reveal_strlit("DOMAIN-KEYWORD");
                reveal_strlit("DOMAIN-REGEX");
                reveal_strlit("GEOSITE");
                reveal_strlit("GEOIP");
                reveal_strlit("SRC-GEOIP");
                reveal_strlit("IP-ASN");
                reveal_strlit("SRC-IP-ASN");
                reveal_strlit("IP-CIDR");
                reveal_strlit("IP-CIDR6");
                reveal_strlit("SRC-IP-CIDR");
                reveal_strlit("IP-SUFFIX");
                reveal_strlit("SRC-IP-SUFFIX");
                reveal_strlit("SRC-PORT");
                reveal_strlit("DST-PORT");
                reveal_strlit("IN-PORT");
                reveal_strlit("DSCP");
                reveal_strlit("PROCESS-NAME");
                reveal_strlit("PROCESS-PATH");
                reveal_strlit("PROCESS-NAME-REGEX");
                reveal_strlit("PROCESS-PATH-REGEX");
                reveal_strlit("NETWORK");
                reveal_strlit("UID");
                reveal_strlit("IN-TYPE");
                reveal_strlit("IN-USER");
                reveal_strlit("IN-NAME");
                reveal_strlit("SUB-RULE");
                reveal_strlit("RULE-SET");
                reveal_strlit("AND");
                reveal_strlit("OR");
                reveal_strlit("NOT");
            }
        }
    }
    if !ls.contains(kind) {
        lemma_unoffered_rule_example(kind, windows);
    }
    lemma_rule_types_split();
}

/// The example payload for a rule type, empty for types without one.
pub fn rule_example(kind: &str, windows: bool) -> (r: &'static str)
    ensures
        r@ == rule_example_v(kind@, windows),
{
    if str_eq(kind, "DOMAIN") {
        "example.com"
    } else if str_eq(kind, "DOMAIN-SUFFIX") {
        "example.com"
    } else if str_eq(kind, "DOMAIN-KEYWORD") {
        "example"
    } else if str_eq(kind, "DOMAIN-REGEX") {
        "example.*"
    } else if str_eq(kind, "GEOSITE") {
        "youtube"
    } else if str_eq(kind, "GEOIP") {
        "CN"
    } else if str_eq(kind, "SRC-GEOIP") {
        "CN"
    } else if str_eq(kind, "IP-ASN") {
        "13335"
    } else if str_eq(kind, "SRC-IP-ASN") {
        "9808"
    } else if str_eq(kind, "IP-CIDR") {
        "127.0.0.0/8"
    } else if str_eq(kind, "IP-CIDR6") {
        "2620:0:2d0:200::7/32"
    } else if str_eq(kind, "SRC-IP-CIDR") {
        "192.168.1.201/32"
    } else if str_eq(kind, "IP-SUFFIX") {
        "8.8.8.8/24"
    } else if str_eq(kind, "SRC-IP-SUFFIX") {
        "192.168.1.201/8"
    } else if str_eq(kind, "SRC-PORT") {
        "7777"
    } else if str_eq(kind, "DST-PORT") {
        "80"
    } else if str_eq(kind, "IN-PORT") {
        "7897"
    } else if str_eq(kind, "DSCP") {
        "4"
    } else if str_eq(kind, "PROCESS-NAME") {
        if windows { "chrome.exe" } else { "curl" }
    } else if str_eq(kind, "PROCESS-PATH") {
        if windows { "C:\\Program Files\\Google\\Chrome\\Application\\chrome.exe" } else { "/usr/bin/wget" }
    } else if str_eq(kind, "PROCESS-NAME-REGEX") {
        ".*telegram.*"
    } else if str_eq(kind, "PROCESS-PATH-REGEX") {
        if windows { "(?i).*Application\\chrome.*" } else { ".*bin/wget" }
    } else if str_eq(kind, "NETWORK") {
        "udp"
    } else if str_eq(kind, "UID") {
        "1001"
    } else if str_eq(kind, "IN-TYPE") {
        "SOCKS/HTTP"
    } else if str_eq(kind, "IN-USER") {
        "mihomo"
    } else if str_eq(kind, "IN-NAME") {
        "ss"
    } else if str_eq(kind, "SUB-RULE") {
        "(NETWORK,tcp)"
    } else if str_eq(kind, "RULE-SET") {
        "providername"
    } else if str_eq(kind, "AND") {
        "((DOMAIN,baidu.com),(NETWORK,UDP))"
    } else if str_eq(kind, "OR") {
        "((NETWORK,UDP),(DOMAIN,baidu.com))"
    } else if str_eq(kind, "NOT") {
        "((DOMAIN,baidu.com))"
    } else {
        ""
    }
}

/// A rule as its config line reads: `MATCH,<proxy>`, `<type>,<proxy>`
/// without a payload, else `<type>,<payload>,<proxy>`.
pub open spec fn rule_text(kind: Seq<char>, payload: Seq<char>, proxy: Seq<char>) -> Seq<char> {
    if kind == "MATCH"@ {
        "MATCH,"@ + proxy
    } else if payload.len() == 0 {
        kind + ","@ + proxy
    } else {
        kind + ","@ + payload + ","@ + proxy
    }
}

/// The config line of a rule (the form the override `delete` list uses).
pub fn rule_to_string(r: &Rule) -> (s: String)
    ensures
        s@ == rule_text(r.kind@, r.payload@, r.proxy@),
{
    if str_eq(r.kind.as_str(), "MATCH") {
        cat("MATCH,", r.proxy.as_str())
    } else if r.payload.as_str().is_empty() {
        let mut s = cat(r.kind.as_str(), ",");
        s.push_str(r.proxy.as_str());
        s
    } else {
        let mut s = cat(r.kind.as_str(), ",");
        s.push_str(r.payload.as_str());
        s.push_str(",");
        s.push_str(r.proxy.as_str());
        s
    }
}

/// Where a rule sends traffic.
#[derive(PartialEq, Eq, Structural, Clone, Copy, Debug)]
pub enum Policy {
    Proxy,
    Direct,
    Reject,
    Match,
}

/// The policy of a rule: the final `MATCH`, a reject, `DIRECT`, or a proxy.
pub fn policy_of(r: &Rule) -> (p: Policy)
    ensures
        p == (if r.kind@ == "MATCH"@ {
            Policy::Match
        } else if contains(r.proxy@, "REJECT"@) {
            Policy::Reject
        } else if r.proxy@ == "DIRECT"@ {
            Policy::Direct
        } else {
            Policy::Proxy
        }),
{
    if str_eq(r.kind.as_str(), "MATCH") {
        Policy::Match
    } else if contains_str(r.proxy.as_str(), "REJECT") {
        Policy::Reject
    } else if str_eq(r.proxy.as_str(), "DIRECT") {
        Policy::Direct
    } else {
        Policy::Proxy
    }
}

/// Colours of the theme that the helpers below pick from.
pub const SUBTLE: u32 = 0xAEBCCB;

pub const MUTED: u32 = 0x8DA0B0;

pub const MUTED2: u32 = 0x7D8E9D;

pub const MUTED3: u32 = 0x6B7C8A;

pub const GREEN: u32 = 0x35C97C;

pub const GREEN_HI: u32 = 0x49DB8D;

pub const BLUE: u32 = 0x46B6D6;

pub const AMBER: u32 = 0xE0A030;

pub const RED: u32 = 0xE0564B;

pub const RED_HI: u32 = 0xEE7D72;

pub const GOOD: u32 = 0x49DB8D;

pub const WARN: u32 = 0xE0A030;

pub const BAD: u32 = 0xE0564B;

/// The colour of a rule's type column.
pub fn type_color(p: Policy) -> (c: u32)
    ensures
        c == (match p {
            Policy::Match => MUTED3,
            Policy::Reject => 0xD99070u32,
            Policy::Direct => 0x5FB6A0u32,
            Policy::Proxy => 0x8493DFu32,
        }),
{
    match p {
        Policy::Match => MUTED3,
        Policy::Reject => 0xD99070,
        Policy::Direct => 0x5FB6A0,
        Policy::Proxy => 0x8493DF,
    }
}

/// The dot and text colours of a rule's policy.
pub fn policy_colors(p: Policy) -> (c: (u32, u32))
    ensures
        c == (match p {
            Policy::Direct => (0x8493A1u32, SUBTLE),
            Policy::Reject => (RED, RED_HI),
            _ => (GREEN, GREEN_HI),
        }),
{
    match p {
        Policy::Direct => (0x8493A1, SUBTLE),
        Policy::Reject => (RED, RED_HI),
        _ => (GREEN, GREEN_HI),
    }
}

/// The colour of a delay reading: none, under 200 ms, under 500 ms, slower.
pub fn delay_color(delay: Option<u32>) -> (c: u32)
    ensures
        c == (match delay {
            None => MUTED,
            Some(d) => if d < 200 {
                GOOD
            } else if d < 500 {
                WARN
            } else {
                BAD
            },
        }),
{
    match delay {
        None => MUTED,
        Some(d) => if d < 200 {
            GOOD
        } else if d < 500 {
            WARN
        } else {
            BAD
        },
    }
}

/// The chip text, chip colour and message colour of a log level.
pub fn level_style(level: &str) -> (r: (&'static str, u32, u32))
    ensures
        (level@ == "warning"@ || level@ == "warn"@) ==> r.0@ == "WARN"@ && r.1 == AMBER && r.2 == 0xE6C98Au32,
        !(level@ == "warning"@ || level@ == "warn"@) && (level@ == "error"@ || level@ == "err"@) ==> r.0@
            == "ERR"@ && r.1 == RED && r.2 == 0xEE9D95u32,
        !(level@ == "warning"@ || level@ == "warn"@ || level@ == "error"@ || level@ == "err"@) && (level@
            == "debug"@ || level@ == "dbg"@) ==> r.0@ == "DBG"@ && r.1 == BLUE && r.2 == MUTED2,
        !(level@ == "warning"@ || level@ == "warn"@ || level@ == "error"@ || level@ == "err"@ || level@
            == "debug"@ || level@ == "dbg"@) ==> r.0@ == "INFO"@ && r.1 == GREEN && r.2 == 0xCDD8E3u32,
{
    if str_eq(level, "warning") || str_eq(level, "warn") {
        ("WARN", AMBER, 0xE6C98A)
    } else if str_eq(level, "error") || str_eq(level, "err") {
        ("ERR", RED, 0xEE9D95)
    } else if str_eq(level, "debug") || str_eq(level, "dbg") {
        ("DBG", BLUE, MUTED2)
    } else {
        ("INFO", GREEN, 0xCDD8E3)
    }
}

/// Which log lines the Logs page shows.
#[derive(PartialEq, Eq, Structural, Clone, Copy, Debug)]
pub enum LogFilter {
    All,
    Info,
    Warning,
    Error,
}

/// Whether a line of `level` passes the filter.
pub fn level_matches(filter: LogFilter, level: &str) -> (r: bool)
    ensures
        r == (match filter {
            LogFilter::All => true,
            LogFilter::Info => level@ == "info"@,
            LogFilter::Warning => level@ == "warning"@ || level@ == "warn"@,
            LogFilter::Error => level@ == "error"@ || level@ == "err"@,
        }),
{
    match filter {
        LogFilter::All => true,
        LogFilter::Info => str_eq(level, "info"),
        LogFilter::Warning => str_eq(level, "warning") || str_eq(level, "warn"),
        LogFilter::Error => str_eq(level, "error") || str_eq(level, "err"),
    }
}

/// The short label of a group's selection strategy.
pub open spec fn kind_label_v(kind: Seq<char>) -> Seq<char> {
    if kind == "Selector"@ {
        "SELECT"@
    } else if kind == "URLTest"@ {
        "URL-TEST"@
    } else if kind == "Fallback"@ {
        "FALLBACK"@
    } else if kind == "LoadBalance"@ {
        "BALANCE"@
    } else if kind == "Relay"@ {
        "RELAY"@
    } else {
        upper_text(kind)
    }
}

/// The short uppercase label of a group kind.
pub fn kind_label(kind: &str) -> (r: String)
    ensures
        r@ == kind_label_v(kind@),
{
    if str_eq(kind, "Selector") {
        own("SELECT")
    } else if str_eq(kind, "URLTest") {
        own("URL-TEST")
    } else if str_eq(kind, "Fallback") {
        own("FALLBACK")
    } else if str_eq(kind, "LoadBalance") {
        own("BALANCE")
    } else if str_eq(kind, "Relay") {
        own("RELAY")
    } else {
        to_uppercase(kind)
    }
}

/// A number written with at least two digits.
pub open spec fn pad2(n: nat) -> Seq<char> {
    if n < 10 {
        seq!['0'] + decimal(n)
    } else {
        decimal(n)
    }
}

fn pad2_exec(n: u64) -> (r: String)
    ensures
        r@ == pad2(n as nat),
{
    let d = decimal_u128(n as u128);
    if n < 10 {
        let mut s = String::new();
        s.push('0');
        s.push_str(d.as_str());
        s
    } else {
        d
    }
}

/// An elapsed time in seconds as `HH:MM:SS` (hours keep growing past 99).
pub fn fmt_elapsed(secs: u64) -> (r: String)
    ensures
        r@ == pad2((secs / 3600) as nat) + ":"@ + pad2(((secs % 3600) / 60) as nat) + ":"@ + pad2(
            (secs % 60) as nat,
        ),
{
    let mut s = pad2_exec(secs / 3600);
    s.push_str(":");
    s.push_str(pad2_exec((secs % 3600) / 60).as_str());
    s.push_str(":");
    s.push_str(pad2_exec(secs % 60).as_str());
    s
}

/// The colours avatars are drawn from.
pub open spec fn avatar_palette(i: int) -> u32 {
    if i == 0 {
        0xD97757
    } else if i == 1 {
        0xE8602C
    } else if i == 2 {
        0x5865F2
    } else if i == 3 {
        0x37AEE2
    } else if i == 4 {
        0x1F7A4D
    } else if i == 5 {
        0x8B5CF6
    } else {
        0x4B5563
    }
}

/// The 32-bit name hash (`h * 31 + byte`, wrapping) over the name's bytes.
pub open spec fn name_hash(bs: Seq<u8>) -> int
    decreases bs.len(),
{
    if bs.len() == 0 {
        0
    } else {
        (name_hash(bs.drop_last()) * 31 + bs.last()) % 0x1_0000_0000
    }
}

/// The avatar colour of a process: its name's hash picks one of the palette.
pub fn avatar_color(name: &str) -> (c: u32)
    ensures
        c == avatar_palette(name_hash(name.spec_bytes()) % 7),
{
    let bs = name.as_bytes();
    let mut h: u64 = 0;
    let mut i: usize = 0;
    assert(bs@.subrange(0, 0) =~= Seq::<u8>::empty());
    while i < bs.len()
        invariant
            i <= bs.len(),
            bs@ == name.spec_bytes(),
            h == name_hash(bs@.subrange(0, i as int)),
            h < 0x1_0000_0000,
        decreases bs.len() - i,
    {
        assert(bs@.subrange(0, i + 1).drop_last() =~= bs@.subrange(0, i as int));
        h = (h * 31 + bs[i] as u64) % 0x1_0000_0000;
        i += 1;
    }
    assert(bs@.subrange(0, bs.len() as int) =~= bs@);
    let k = h % 7;
    if k == 0 {
        0xD97757
    } else if k == 1 {
        0xE8602C
    } else if k == 2 {
        0x5865F2
    } else if k == 3 {
        0x37AEE2
    } else if k == 4 {
        0x1F7A4D
    } else if k == 5 {
        0x8B5CF6
    } else {
        0x4B5563
    }
}

/// A detail row of a connection: label, value and the rule fragment it
/// suggests, if any.
pub struct Kv {
    pub label: String,
    pub value: String,
    pub frag: Option<String>,
}

pub fn kv(label: String, value: String, frag: Option<String>) -> (r: Kv)
    ensures
        r.label == label && r.value == value && r.frag == frag,
{
    Kv { label, value, frag }
}

/// The position of the last `c`, or -1.
pub open spec fn last_index(s: Seq<char>, c: char) -> int
    decreases s.len(),
{
    if s.len() == 0 {
        -1
    } else if s.last() == c {
        s.len() - 1
    } else {
        last_index(s.drop_last(), c)
    }
}

pub proof fn lemma_last_index(s: Seq<char>, c: char)
    ensures
        -1 <= last_index(s, c) < s.len(),
        last_index(s, c) >= 0 ==> s[last_index(s, c)] == c,
        forall|j: int| last_index(s, c) < j < s.len() ==> s[j] != c,
    decreases s.len(),
{
    if s.len() > 0 && s.last() != c {
        lemma_last_index(s.drop_last(), c);
        assert forall|j: int| last_index(s, c) < j < s.len() implies s[j] != c by {
            if j < s.len() - 1 {
                assert(s[j] == s.drop_last()[j]);
            }
        }
    }
}

/// A host without a trailing `:port` (digits after its only colon; an IPv6
/// address, with more colons, is kept whole).
pub open spec fn strip_port_v(host: Seq<char>) -> Seq<char> {
    let k = last_index(host, ':');
    if k > 0 && (forall|j: int| k < j < host.len() ==> '0' <= #[trigger] host[j] <= '9') && last_index(
        host.subrange(0, k),
        ':',
    ) < 0 {
        host.subrange(0, k)
    } else {
        host
    }
}

fn last_colon(cs: &Vec<char>, end: usize) -> (r: Option<usize>)
    requires
        end <= cs.len(),
    ensures
        match r {
            Some(k) => k < end && last_index(cs@.subrange(0, end as int), ':') == k as int,
            None => last_index(cs@.subrange(0, end as int), ':') == -1,
        },
{
    let mut i = end;
    while i > 0
        invariant
            i <= end <= cs.len(),
            last_index(cs@.subrange(0, end as int), ':') == last_index(cs@.subrange(0, i as int), ':'),
        decreases i,
    {
        assert(cs@.subrange(0, i as int).last() == cs@[i - 1]);
        if cs[i - 1] == ':' {
            return Some(i - 1);
        }
        assert(cs@.subrange(0, i as int).drop_last() =~= cs@.subrange(0, i - 1));
        i -= 1;
    }
    None
}

/// The host of an address without its port.
pub fn strip_port(host: &str) -> (r: String)
    ensures
        r@ == strip_port_v(host@),
{
    let cs = to_chars(host);
    assert(cs@.subrange(0, cs.len() as int) =~= host@);
    match last_colon(&cs, cs.len()) {
        Some(k) => {
            let mut digits = true;
            let mut j = k + 1;
            while j < cs.len()
                invariant
                    k < j <= cs.len(),
                    cs@ == host@,
                    digits == (forall|t: int| k < t < j ==> '0' <= #[trigger] host@[t] <= '9'),
                decreases cs.len() - j,
            {
                if !('0' <= cs[j] && cs[j] <= '9') {
                    digits = false;
                }
                j += 1;
            }
            let before = last_colon(&cs, k);
            if k > 0 && digits && before.is_none() {
                crate::text::from_chars(crate::text::slice_range(cs.as_slice(), 0, k).as_slice())
            } else {
                own(host)
            }
        },
        None => own(host),
    }
}

/// A rule fragment for an address: `<prefix>,<ip>/32`, or `/128` for IPv6.
pub fn ip_cidr_frag(prefix: &str, ip: &str) -> (r: Option<String>)
    ensures
        trim(ip@).len() == 0 ==> r is None,
        trim(ip@).len() > 0 ==> (r matches Some(f) && f@ == prefix@ + ","@ + trim(ip@) + (if contains(
            trim(ip@),
            ":"@,
        ) {
            "/128"@
        } else {
            "/32"@
        })),
{
    let t = trim_str(ip);
    if t.as_str().is_empty() {
        return None;
    }
    let mut s = cat(prefix, ",");
    s.push_str(t.as_str());
    if contains_str(t.as_str(), ":") {
        s.push_str("/128");
    } else {
        s.push_str("/32");
    }
    Some(s)
}

/// A rule fragment for a port: `<prefix>,<port>`, none for an empty or zero
/// port.
pub fn port_frag(prefix: &str, port: &str) -> (r: Option<String>)
    ensures
        (trim(port@).len() == 0 || trim(port@) == "0"@) ==> r is None,
        !(trim(port@).len() == 0 || trim(port@) == "0"@) ==> (r matches Some(f) && f@ == prefix@ + ","@ + trim(
            port@,
        )),
{
    let t = trim_str(port);
    if t.as_str().is_empty() || str_eq(t.as_str(), "0") {
        return None;
    }
    let mut s = cat(prefix, ",");
    s.push_str(t.as_str());
    Some(s)
}

/// Whether the system proxy only reaches part of the desktop (Linux sessions
/// whose desktop ignores it).
pub fn sysproxy_partial(linux: bool, desktop: Option<&str>) -> (r: bool)
    ensures
        r == (linux && !crate::sysproxy::honors_proxy_v(
            match desktop {
                Some(d) => Some(d@),
                None => None,
            },
        )),
{
    linux && !crate::sysproxy::session_honors_proxy(desktop)
}

/// The calendar date (UTC, `YYYY-MM-DD`) of a Unix time, as chrono formats
/// it, when chrono can represent the time.
pub uninterp spec fn utc_date(ts: i64) -> Option<Seq<char>>;

/// Formats a Unix time as its UTC date (`chrono::DateTime::from_timestamp`
/// and `format("%Y-%m-%d")`).
#[verifier::external_body]
fn utc_date_label(ts: i64) -> (r: Option<String>)
    ensures
        match r {
            Some(d) => utc_date(ts) == Some(d@),
            None => utc_date(ts) is None,
        },
{
    match chrono::DateTime::from_timestamp(ts, 0) {
        Some(d) => Some(d.format("%Y-%m-%d").to_string()),
        None => None,
    }
}

/// The text in lowercase, as `str::to_lowercase` writes it (Unicode rules).
pub uninterp spec fn lowercase_text(s: Seq<char>) -> Seq<char>;

/// `str::to_lowercase`.
#[verifier::external_body]
fn to_lowercase(s: &str) -> (r: String)
    ensures
        r@ == lowercase_text(s@),
{
    s.to_lowercase()
}

/// Whole days until `expire` (none left once it passed), for an expiry that
/// is set; none for an unset one (shown as "never").
pub open spec fn days_left(expire: i64, now: i64) -> Option<int> {
    if expire <= 0 {
        None
    } else if expire - now > 0 {
        Some((expire - now) / 86_400)
    } else {
        Some(0)
    }
}

/// Days left until a subscription expires (see [`days_left`]).
pub fn expiry_days(expire: i64, now: i64) -> (r: Option<i64>)
    requires
        expire > 0 ==> i64::MIN <= expire - now <= i64::MAX,
    ensures
        match r {
            Some(d) => days_left(expire, now) == Some(d as int),
            None => days_left(expire, now) is None,
        },
{
    if expire <= 0 {
        return None;
    }
    let diff = expire - now;
    if diff > 0 {
        Some(diff / 86_400)
    } else {
        Some(0)
    }
}

/// What the home page shows of the current subscription.
pub struct SubStats {
    pub has_traffic: bool,
    pub used: u64,
    pub total: u64,
    pub remaining: u64,
    pub days: Option<i64>,
    pub expire_label: Option<String>,
    pub announce: Vec<String>,
}

/// A number of the item's `extra` usage block (0 when absent).
pub open spec fn extra_u64(item: Option<JsonV>, key: Seq<char>) -> int {
    match item {
        Some(i) => match get(i, "extra"@) {
            Some(e) => match as_u64(get(e, key)) {
                Some(n) => n,
                None => 0,
            },
            None => 0,
        },
        None => 0,
    }
}

pub open spec fn extra_i64(item: Option<JsonV>, key: Seq<char>) -> int {
    match item {
        Some(i) => match get(i, "extra"@) {
            Some(e) => match as_i64(get(e, key)) {
                Some(n) => n,
                None => 0,
            },
            None => 0,
        },
        None => 0,
    }
}

pub open spec fn item_view(item: Option<&Json>) -> Option<JsonV> {
    match item {
        Some(i) => Some(i@),
        None => None,
    }
}

fn extra_field(item: Option<&Json>) -> (r: Option<&Json>)
    ensures
        match item {
            Some(i) => match get(i@, "extra"@) {
                Some(e) => r matches Some(x) && x@ == e,
                None => r is None,
            },
            None => r is None,
        },
{
    match item {
        Some(i) => i.get("extra"),
        None => None,
    }
}

/// The subscription's usage, expiry and announcement lines: used is upload
/// plus download (saturating), remaining what the quota leaves of it, the
/// expiry in days and as a date when set, the announcement's non-blank lines.
pub fn sub_stats(item: Option<&Json>, now: i64) -> (r: SubStats)
    requires
        extra_i64(item_view(item), "expire"@) > 0 ==> i64::MIN <= extra_i64(item_view(item), "expire"@) - now
            <= i64::MAX,
    ensures
        ({
            let up = extra_u64(item_view(item), "upload"@);
            let down = extra_u64(item_view(item), "download"@);
            let total = extra_u64(item_view(item), "total"@);
            let expire = extra_i64(item_view(item), "expire"@);
            let used = if up + down > u64::MAX { u64::MAX as int } else { up + down };
            &&& r.used == used
            &&& r.total == total
            &&& r.remaining == (if total > used { total - used } else { 0 })
            &&& r.has_traffic == (total > 0 || used > 0)
            &&& (match r.days {
                Some(d) => days_left(expire as i64, now) == Some(d as int),
                None => days_left(expire as i64, now) is None,
            })
            &&& (expire > 0 ==> match r.expire_label {
                Some(l) => utc_date(expire as i64) == Some(l@),
                None => utc_date(expire as i64) is None,
            })
            &&& (expire <= 0 ==> r.expire_label is None)
            &&& r.announce@.map_values(|x: String| x@) == (match item {
                Some(i) => match as_str(get(i@, "announce"@)) {
                    Some(a) => nonblank(lines_v(a)),
                    None => Seq::empty(),
                },
                None => Seq::empty(),
            })
        }),
{
    let extra = extra_field(item);
    let (upload, download, total, expire) = match extra {
        Some(e) => (
            crate::state::u64_field(e, "upload"),
            crate::state::u64_field(e, "download"),
            crate::state::u64_field(e, "total"),
            crate::state::i64_field(e, "expire"),
        ),
        None => (0, 0, 0, 0),
    };
    let used = upload.saturating_add(download);
    let remaining = total.saturating_sub(used);
    let (days, expire_label) = if expire > 0 {
        (expiry_days(expire, now), utc_date_label(expire))
    } else {
        (None, None)
    };
    let announce = match item {
        Some(i) => match i.get("announce") {
            Some(a) => match a.as_str() {
                Some(text) => nonblank_lines(text),
                None => Vec::new(),
            },
            None => Vec::new(),
        },
        None => Vec::new(),
    };
    proof {
        assert(Seq::<String>::empty().map_values(|x: String| x@) =~= Seq::<Seq<char>>::empty());
    }
    SubStats { has_traffic: total > 0 || used > 0, used, total, remaining, days, expire_label, announce }
}

/// The trimmed, non-blank lines of a text.
pub fn nonblank_lines(text: &str) -> (r: Vec<String>)
    ensures
        r@.map_values(|x: String| x@) == nonblank(lines_v(text@)),
{
    let lines = lines_of(text);
    let ghost lv = lines@.map_values(|x: String| x@);
    let mut kept: Vec<String> = Vec::new();
    let mut i: usize = 0;
    assert(lv.subrange(0, 0) =~= Seq::<Seq<char>>::empty());
    assert(kept@.map_values(|x: String| x@) =~= Seq::<Seq<char>>::empty());
    while i < lines.len()
        invariant
            i <= lines.len(),
            lv == lines@.map_values(|x: String| x@),
            kept@.map_values(|x: String| x@) == nonblank(lv.subrange(0, i as int)),
        decreases lines.len() - i,
    {
        assert(lv.subrange(0, i + 1).drop_last() =~= lv.subrange(0, i as int));
        let t = trim_str(lines[i].as_str());
        if !t.as_str().is_empty() {
            let ghost before = kept@;
            kept.push(t);
            assert(kept@.map_values(|x: String| x@) =~= before.map_values(|x: String| x@).push(t@));
        }
        i += 1;
    }
    assert(lv.subrange(0, lines.len() as int) =~= lv);
    kept
}

/// The profile's support link (trimmed, when set) and whether it leads to
/// Telegram (`tg:` scheme, a `t.me` or `telegram` address).
pub fn support_link(item: Option<&Json>) -> (r: Option<(String, bool)>)
    ensures
        match item {
            Some(i) => match as_str(get(i@, "supportUrl"@)) {
                Some(u) => if trim(u).len() > 0 {
                    r matches Some(x) && x.0@ == trim(u) && x.1 == (starts_with(lowercase_text(trim(u)), "tg:"@)
                        || contains(lowercase_text(trim(u)), "t.me"@) || contains(
                        lowercase_text(trim(u)),
                        "telegram"@,
                    ))
                } else {
                    r is None
                },
                None => r is None,
            },
            None => r is None,
        },
{
    let i = match item {
        Some(i) => i,
        None => return None,
    };
    let u = match i.get("supportUrl") {
        Some(v) => match v.as_str() {
            Some(u) => u,
            None => return None,
        },
        None => return None,
    };
    let url = trim_str(u);
    if url.as_str().is_empty() {
        return None;
    }
    let tg = is_telegram_link(to_lowercase(url.as_str()).as_str());
    Some((url, tg))
}

/// Whether a support link, in lowercase, leads to Telegram: a `tg:` link,
/// or a `t.me` or `telegram` address.
pub fn is_telegram_link(lower: &str) -> (r: bool)
    ensures
        r == (starts_with(lower@, "tg:"@) || contains(lower@, "t.me"@) || contains(lower@, "telegram"@)),
{
    starts_with_str(lower, "tg:") || contains_str(lower, "t.me") || contains_str(lower, "telegram")
}

/// A rule or proxy provider as the Resources page lists it.
pub struct ProviderRow {
    pub name: String,
    pub subtitle: String,
}

/// The subtitle of a provider: its vehicle, then (for rule providers) its
/// behaviour and rule count, else its proxy count, joined by ` · `.
pub open spec fn provider_subtitle(p: JsonV, is_rule: bool) -> Seq<char> {
    let vehicle = crate::state::field_text(p, "vehicleType"@);
    if is_rule {
        vehicle + " · "@ + crate::state::field_text(p, "behavior"@) + " · "@ + decimal(
            crate::state::field_u64(p, "ruleCount"@) as nat,
        )
    } else {
        vehicle + " · "@ + decimal(
            match as_array(get(p, "proxies"@)) {
                Some(a) => a.len(),
                None => 0,
            },
        )
    }
}

/// Whether a provider is listed: it has a vehicle, and is no built-in
/// `Compatible` one.
pub open spec fn provider_listed(p: JsonV) -> bool {
    let v = crate::state::field_text(p, "vehicleType"@);
    v.len() > 0 && v != "Compatible"@
}

/// The listed providers as `(name, subtitle)`, in the response's order.
pub open spec fn provider_rows(ps: Seq<(Seq<char>, JsonV)>, is_rule: bool) -> Seq<(Seq<char>, Seq<char>)>
    decreases ps.len(),
{
    if ps.len() == 0 {
        Seq::empty()
    } else {
        let r = provider_rows(ps.drop_last(), is_rule);
        if provider_listed(ps.last().1) {
            r.push((ps.last().0, provider_subtitle(ps.last().1, is_rule)))
        } else {
            r
        }
    }
}

/// Where a row named `k` goes among rows sorted by name.
pub open spec fn row_insert_pos(s: Seq<(Seq<char>, Seq<char>)>, k: Seq<char>) -> nat
    decreases s.len(),
{
    if s.len() == 0 {
        0
    } else if text_lt(k, s[0].0) {
        0
    } else {
        1 + row_insert_pos(s.drop_first(), k)
    }
}

/// Rows sorted by name, stably.
pub open spec fn sort_rows(s: Seq<(Seq<char>, Seq<char>)>) -> Seq<(Seq<char>, Seq<char>)>
    decreases s.len(),
{
    if s.len() == 0 {
        s
    } else {
        let r = sort_rows(s.drop_last());
        r.insert(row_insert_pos(r, s.last().0) as int, s.last())
    }
}

pub proof fn lemma_row_insert_pos(s: Seq<(Seq<char>, Seq<char>)>, k: Seq<char>, p: int)
    requires
        0 <= p <= s.len(),
        forall|j: int| 0 <= j < p ==> !text_lt(k, (#[trigger] s[j]).0),
        p < s.len() ==> text_lt(k, s[p].0),
    ensures
        row_insert_pos(s, k) == p,
    decreases s.len(),
{
    if s.len() > 0 && p > 0 {
        let t = s.drop_first();
        assert forall|j: int| 0 <= j < p - 1 implies !text_lt(k, (#[trigger] t[j]).0) by {
            assert(t[j] == s[j + 1]);
        }
        if p - 1 < t.len() {
            assert(t[p - 1] == s[p]);
        }
        lemma_row_insert_pos(t, k, p - 1);
    }
}

pub proof fn lemma_sort_rows_len(s: Seq<(Seq<char>, Seq<char>)>)
    ensures
        sort_rows(s).len() == s.len(),
    decreases s.len(),
{
    if s.len() > 0 {
        lemma_sort_rows_len(s.drop_last());
        lemma_row_insert_pos_bound(sort_rows(s.drop_last()), s.last().0);
    }
}

pub proof fn lemma_row_insert_pos_bound(s: Seq<(Seq<char>, Seq<char>)>, k: Seq<char>)
    ensures
        row_insert_pos(s, k) <= s.len(),
    decreases s.len(),
{
    if s.len() > 0 {
        lemma_row_insert_pos_bound(s.drop_first(), k);
    }
}

pub open spec fn rows_view(v: Seq<ProviderRow>) -> Seq<(Seq<char>, Seq<char>)> {
    v.map_values(|r: ProviderRow| (r.name@, r.subtitle@))
}

fn subtitle_of(p: &Json, is_rule: bool) -> (r: String)
    ensures
        r@ == provider_subtitle(p@, is_rule),
{
    let vehicle = crate::state::text_field(p, "vehicleType");
    let mut s = vehicle;
    s.push_str(" · ");
    if is_rule {
        let behavior = crate::state::text_field(p, "behavior");
        s.push_str(behavior.as_str());
        s.push_str(" · ");
        let count = crate::state::u64_field(p, "ruleCount");
        s.push_str(decimal_u128(count as u128).as_str());
    } else {
        let count: usize = match p.get("proxies") {
            Some(v) => match v.as_array() {
                Some(a) => {
                    proof {
                        lemma_view_list_len(a@);
                    }
                    a.len()
                },
                None => 0,
            },
            None => 0,
        };
        s.push_str(decimal_u128(count as u128).as_str());
    }
    s
}

/// The providers of a `/providers/rules` or `/providers/proxies` answer:
/// the listed ones with their subtitles, sorted by name.
pub fn parse_providers(value: &Json, is_rule: bool) -> (r: Vec<ProviderRow>)
    ensures
        rows_view(r@) == sort_rows(
            match get(value@, "providers"@) {
                Some(JsonV::Object(ps)) => provider_rows(ps, is_rule),
                _ => Seq::empty(),
            },
        ),
{
    let ps = match value.get("providers") {
        Some(Json::Object(ps)) => ps,
        _ => {
            let v: Vec<ProviderRow> = Vec::new();
            assert(rows_view(v@) =~= Seq::<(Seq<char>, Seq<char>)>::empty());
            return v;
        },
    };
    let ghost pv = view_entries(ps@);
    proof {
        lemma_view_entries_len(ps@);
    }
    let mut rows: Vec<ProviderRow> = Vec::new();
    let mut i: usize = 0;
    assert(pv.subrange(0, 0) =~= Seq::<(Seq<char>, JsonV)>::empty());
    assert(rows_view(rows@) =~= Seq::<(Seq<char>, Seq<char>)>::empty());
    while i < ps.len()
        invariant
            i <= ps.len(),
            pv == view_entries(ps@),
            pv.len() == ps.len(),
            rows_view(rows@) == provider_rows(pv.subrange(0, i as int), is_rule),
        decreases ps.len() - i,
    {
        proof {
            lemma_view_entries_index(ps@, i as int);
            assert(pv.subrange(0, i + 1).drop_last() =~= pv.subrange(0, i as int));
        }
        let p = &ps[i].1;
        let vehicle = crate::state::text_field(p, "vehicleType");
        if !vehicle.as_str().is_empty() && !str_eq(vehicle.as_str(), "Compatible") {
            let row = ProviderRow { name: ps[i].0.clone(), subtitle: subtitle_of(p, is_rule) };
            let ghost before = rows@;
            rows.push(row);
            assert(rows_view(rows@) =~= rows_view(before).push((row.name@, row.subtitle@)));
        }
        i += 1;
    }
    assert(pv.subrange(0, ps.len() as int) =~= pv);
    let ghost all = rows_view(rows@);
    // stable insertion by name
    let mut out: Vec<ProviderRow> = Vec::new();
    let mut rest = rows;
    let n = rest.len();
    let mut j: usize = 0;
    assert(all.subrange(0, 0) =~= Seq::<(Seq<char>, Seq<char>)>::empty());
    assert(rows_view(out@) =~= Seq::<(Seq<char>, Seq<char>)>::empty());
    while j < n
        invariant
            j <= n,
            n == rest.len(),
            rows_view(rest@) == all,
            rows_view(out@) == sort_rows(all.subrange(0, j as int)),
        decreases n - j,
    {
        let ghost ov = rows_view(out@);
        let name = rest[j].name.clone();
        let sub = rest[j].subtitle.clone();
        assert(all[j as int] == (name@, sub@));
        proof {
            assert(all.subrange(0, j + 1).drop_last() =~= all.subrange(0, j as int));
            lemma_sort_rows_len(all.subrange(0, j as int));
        }
        let mut p: usize = 0;
        while p < out.len() && !text_less(name.as_str(), out[p].name.as_str())
            invariant
                p <= out.len(),
                ov == rows_view(out@),
                forall|t: int| 0 <= t < p ==> !text_lt(name@, (#[trigger] ov[t]).0),
            decreases out.len() - p,
        {
            p += 1;
        }
        proof {
            lemma_row_insert_pos(ov, name@, p as int);
        }
        let row = ProviderRow { name, subtitle: sub };
        out.insert(p, row);
        assert(rows_view(out@) =~= ov.insert(p as int, (row.name@, row.subtitle@)));
        j += 1;
    }
    assert(all.subrange(0, n as int) =~= all);
    out
}

/// The last step of the welcome flow.
pub const ONBOARDING_LAST_STEP: u8 = 3;

/// The screen a step of the welcome flow is about.
pub enum OnboardingPage {
    Profiles,
    /// The core page of the settings.
    CoreSettings,
    Home,
}

/// What advancing the welcome flow does.
pub enum OnboardingMove {
    /// The flow is over: dismiss it and record that it was seen.
    Finish,
    /// Show this step, on this screen.
    Show(u8, OnboardingPage),
}

/// The screen step `n` of the welcome flow shows.
pub open spec fn onboarding_page(n: u8) -> OnboardingPage {
    if n == 1 {
        OnboardingPage::Profiles
    } else if n == 2 {
        OnboardingPage::CoreSettings
    } else {
        OnboardingPage::Home
    }
}

/// Advances the welcome flow from its current step (none counts as the
/// first): past the last step it finishes, else it shows the next step on
/// the screen that step is about.
pub fn onboarding_advance(step: Option<u8>) -> (r: OnboardingMove)
    ensures
        ({
            let s = match step {
                Some(x) => x,
                None => 0u8,
            };
            &&& s >= ONBOARDING_LAST_STEP ==> r is Finish
            &&& s < ONBOARDING_LAST_STEP ==> (r matches OnboardingMove::Show(n, p) && n == s + 1 && p
                == onboarding_page(n))
        }),
{
    let s = match step {
        Some(x) => x,
        None => 0,
    };
    if s >= ONBOARDING_LAST_STEP {
        return OnboardingMove::Finish;
    }
    let next = s + 1;
    let page = if next == 1 {
        OnboardingPage::Profiles
    } else if next == 2 {
        OnboardingPage::CoreSettings
    } else {
        OnboardingPage::Home
    };
    OnboardingMove::Show(next, page)
}

/// The connection filter as typed, trimmed and in lowercase.
pub fn conn_filter(input: &str) -> (r: String)
    ensures
        r@ == lowercase_text(trim(input@)),
{
    to_lowercase(trim_str(input).as_str())
}

/// Whether a process passes the connection filter (in lowercase): an empty
/// filter passes all, else the name in lowercase must hold it.
pub fn process_matches(name: &str, filter: &str) -> (r: bool)
    ensures
        r == (filter@.len() == 0 || contains(lowercase_text(name@), filter@)),
{
    if filter.is_empty() {
        return true;
    }
    contains_str(to_lowercase(name).as_str(), filter)
}

/// Whether a character is an ASCII letter.
pub open spec fn ascii_letter(c: char) -> bool {
    ('a' <= c <= 'z') || ('A' <= c <= 'Z')
}

/// The `DOMAIN-SUFFIX` rule fragment of a connection's host (its port
/// dropped), offered when the host holds an ASCII letter.
pub fn domain_suffix_frag(host: &str) -> (r: Option<String>)
    ensures
        (exists|j: int| 0 <= j < strip_port_v(host@).len() && ascii_letter(#[trigger] strip_port_v(host@)[j])) ==> (r matches Some(
            f,
        ) && f@ == "DOMAIN-SUFFIX,"@ + strip_port_v(host@)),
        !(exists|j: int| 0 <= j < strip_port_v(host@).len() && ascii_letter(#[trigger] strip_port_v(host@)[j])) ==> r is None,
{
    let h = strip_port(host);
    let cs = to_chars(h.as_str());
    let mut i: usize = 0;
    while i < cs.len()
        invariant
            i <= cs.len(),
            cs@ == strip_port_v(host@),
            h@ == strip_port_v(host@),
            forall|j: int| 0 <= j < i ==> !ascii_letter(#[trigger] cs@[j]),
        decreases cs.len() - i,
    {
        let c = cs[i];
        if ('a' <= c && c <= 'z') || ('A' <= c && c <= 'Z') {
            assert(ascii_letter(cs@[i as int]));
            return Some(cat("DOMAIN-SUFFIX,", h.as_str()));
        }
        i += 1;
    }
    None
}

/// The first word of a text: after leading white space, up to the next.
pub open spec fn first_word(s: Seq<char>) -> Seq<char> {
    let t = crate::text::trim_start(s);
    t.subrange(0, word_len(t) as int)
}

/// The number of leading characters that are not white space.
pub open spec fn word_len(s: Seq<char>) -> nat
    decreases s.len(),
{
    if s.len() > 0 && !crate::text::is_ws(s[0]) {
        1 + word_len(s.subrange(1, s.len() as int))
    } else {
        0
    }
}

proof fn lemma_word_len(s: Seq<char>, n: int)
    requires
        0 <= n <= s.len(),
        forall|i: int| 0 <= i < n ==> !crate::text::is_ws(#[trigger] s[i]),
        n < s.len() ==> crate::text::is_ws(s[n]),
    ensures
        word_len(s) == n,
    decreases n,
{
    if n > 0 {
        let t = s.subrange(1, s.len() as int);
        assert forall|i: int| 0 <= i < n - 1 implies !crate::text::is_ws(#[trigger] t[i]) by {
            assert(t[i] == s[i + 1]);
        }
        if n - 1 < t.len() {
            assert(t[n - 1] == s[n]);
        }
        lemma_word_len(t, n - 1);
    }
}

/// The `IP-ASN` rule fragment of a connection's destination ASN (its first
/// word, such as `13335` of `13335 Cloudflare`), offered when there is one.
pub fn ip_asn_frag(asn: &str) -> (r: Option<String>)
    ensures
        first_word(asn@).len() == 0 ==> r is None,
        first_word(asn@).len() > 0 ==> (r matches Some(f) && f@ == "IP-ASN,"@ + first_word(asn@)),
{
    let t = crate::text::trim_start_str(asn);
    let cs = to_chars(t.as_str());
    let mut n: usize = 0;
    while n < cs.len() && !crate::text::is_ws_exec(cs[n])
        invariant
            n <= cs.len(),
            cs@ == crate::text::trim_start(asn@),
            forall|i: int| 0 <= i < n ==> !crate::text::is_ws(#[trigger] cs@[i]),
        decreases cs.len() - n,
    {
        n += 1;
    }
    proof {
        lemma_word_len(cs@, n as int);
    }
    if n == 0 {
        return None;
    }
    let word = crate::text::from_chars(crate::text::slice_range(cs.as_slice(), 0, n).as_slice());
    Some(cat("IP-ASN,", word.as_str()))
}

/// The `PROCESS-NAME` rule fragment of a connection's process, offered when
/// it names one.
pub fn process_name_frag(process: &str) -> (r: Option<String>)
    ensures
        process@.len() == 0 ==> r is None,
        process@.len() > 0 ==> (r matches Some(f) && f@ == "PROCESS-NAME,"@ + process@),
{
    if process.is_empty() {
        None
    } else {
        Some(cat("PROCESS-NAME,", process))
    }
}

/// Whether the add-profile form can be submitted: a local profile needs a
/// picked file unless an existing one is edited; a remote one needs a URL
/// that is not blank.
pub fn can_submit_profile(local: bool, editing: bool, file_picked: bool, url: &str) -> (r: bool)
    ensures
        r == (if local {
            editing || file_picked
        } else {
            trim(url@).len() > 0
        }),
{
    if local {
        editing || file_picked
    } else {
        !trim_str(url).as_str().is_empty()
    }
}

/// The group the proxies page shows: the one picked, while it is still
/// among the groups, else the first group.
pub fn focused_group(picked: Option<&str>, groups: &Vec<String>) -> (r: Option<String>)
    ensures
        ({
            let gs = groups@.map_values(|g: String| g@);
            match picked {
                Some(p) => if gs.contains(p@) {
                    r matches Some(x) && x@ == p@
                } else if gs.len() > 0 {
                    r matches Some(x) && x@ == gs[0]
                } else {
                    r is None
                },
                None => if gs.len() > 0 {
                    r matches Some(x) && x@ == gs[0]
                } else {
                    r is None
                },
            }
        }),
{
    if let Some(p) = picked {
        if crate::text::in_list(groups, p) {
            return Some(own(p));
        }
    }
    if groups.len() > 0 {
        Some(groups[0].clone())
    } else {
        None
    }
}

/// The desktop entry that claims `nyx://` links for the executable at `exe`.
pub fn scheme_desktop_entry(exe: &str) -> (r: String)
    ensures
        r@ == "[Desktop Entry]\nName=Nyx\nExec="@ + exe@
            + " %u\nType=Application\nTerminal=false\nNoDisplay=true\nMimeType=x-scheme-handler/nyx;\n"@,
{
    let mut s = cat("[Desktop Entry]\nName=Nyx\nExec=", exe);
    s.push_str(" %u\nType=Application\nTerminal=false\nNoDisplay=true\nMimeType=x-scheme-handler/nyx;\n");
    s
}

} // verus!
