//! LaTeX symbol commands, ligatures and math alphabets turned into Unicode.

use vstd::prelude::*;
use vstd::string::StringSliceAdditionalSpecFns;
use crate::macros::{pair_patterns, pair_replacements, replacer_for};
use crate::outside::{captures_view, group_end, group_start, well_formed_captures};
use crate::regexes::{re_captures, re_captures_bytes};
use crate::replacer::replace_commands;
use crate::scan::{push_all, push_range, replace_all_spec, replace_bytes};
use crate::text::{string_from_bytes, utf8_lossy};

verus! {

/// Text-mode symbol commands and their characters.
pub open spec fn text_command_pairs() -> Seq<(&'static str, &'static str)> {
    seq![
        ("\\textbackslash", "\\"),
        ("\\textasciitilde", "~"),
        ("\\textasciicircum", "^"),
        ("\\textemdash", "\u{2014}"),
        ("\\textendash", "\u{2013}"),
        ("\\textellipsis", "\u{2026}"),
        ("\\textquoteleft", "\u{2018}"),
        ("\\textquoteright", "\u{2019}"),
        ("\\textquotedblleft", "\u{201C}"),
        ("\\textquotedblright", "\u{201D}"),
        ("\\textdagger", "\u{2020}"),
        ("\\textdaggerdbl", "\u{2021}"),
        ("\\textbullet", "\u{2022}"),
        ("\\textperthousand", "\u{2030}"),
        ("\\textsection", "\u{00A7}"),
        ("\\textparagraph", "\u{00B6}"),
        ("\\textregistered", "\u{00AE}"),
        ("\\textcopyright", "\u{00A9}"),
        ("\\texttrademark", "\u{2122}"),
        ("\\textpm", "\u{00B1}"),
        ("\\textmp", "\u{2213}"),
        ("\\textsurd", "\u{221A}"),
        ("\\texttimes", "\u{00D7}"),
        ("\\texteuro", "\u{20AC}"),
        ("\\textsterling", "\u{00A3}"),
        ("\\textcent", "\u{00A2}"),
        ("\\textdegree", "\u{00B0}"),
        ("\\textbar", "|"),
        ("\\textgreater", ">"),
        ("\\textless", "<"),
        ("\\textbraceleft", "{"),
        ("\\textbraceright", "}"),
        ("\\textunderscore", "_"),
        ("\\textvisiblespace", "\u{2423}"),
        ("\\textperiodcentered", "\u{00B7}"),
        ("\\textonequarter", "\u{00BC}"),
        ("\\textonehalf", "\u{00BD}"),
        ("\\textthreequarters", "\u{00BE}"),
        ("\\textexclamdown", "\u{00A1}"),
        ("\\textquestiondown", "\u{00BF}"),
    ]
}

fn text_command_list() -> (res: Vec<(&'static str, &'static str)>)
    ensures
        res@ == text_command_pairs(),
{
    vec![
        ("\\textbackslash", "\\"),
        ("\\textasciitilde", "~"),
        ("\\textasciicircum", "^"),
        ("\\textemdash", "\u{2014}"),
        ("\\textendash", "\u{2013}"),
        ("\\textellipsis", "\u{2026}"),
        ("\\textquoteleft", "\u{2018}"),
        ("\\textquoteright", "\u{2019}"),
        ("\\textquotedblleft", "\u{201C}"),
        ("\\textquotedblright", "\u{201D}"),
        ("\\textdagger", "\u{2020}"),
        ("\\textdaggerdbl", "\u{2021}"),
        ("\\textbullet", "\u{2022}"),
        ("\\textperthousand", "\u{2030}"),
        ("\\textsection", "\u{00A7}"),
        ("\\textparagraph", "\u{00B6}"),
        ("\\textregistered", "\u{00AE}"),
        ("\\textcopyright", "\u{00A9}"),
        ("\\texttrademark", "\u{2122}"),
        ("\\textpm", "\u{00B1}"),
        ("\\textmp", "\u{2213}"),
        ("\\textsurd", "\u{221A}"),
        ("\\texttimes", "\u{00D7}"),
        ("\\texteuro", "\u{20AC}"),
        ("\\textsterling", "\u{00A3}"),
        ("\\textcent", "\u{00A2}"),
        ("\\textdegree", "\u{00B0}"),
        ("\\textbar", "|"),
        ("\\textgreater", ">"),
        ("\\textless", "<"),
        ("\\textbraceleft", "{"),
        ("\\textbraceright", "}"),
        ("\\textunderscore", "_"),
        ("\\textvisiblespace", "\u{2423}"),
        ("\\textperiodcentered", "\u{00B7}"),
        ("\\textonequarter", "\u{00BC}"),
        ("\\textonehalf", "\u{00BD}"),
        ("\\textthreequarters", "\u{00BE}"),
        ("\\textexclamdown", "\u{00A1}"),
        ("\\textquestiondown", "\u{00BF}"),
    ]
}

/// Math symbol commands and their characters.
pub open spec fn math_symbol_pairs() -> Seq<(&'static str, &'static str)> {
    seq![
        ("\\ldots", "\u{2026}"),
        ("\\dots", "\u{2026}"),
        ("\\cdots", "\u{22ef}"),
        ("\\times", "\u{00d7}"),
        ("\\pm", "\u{00b1}"),
        ("\\mp", "\u{2213}"),
        ("\\div", "\u{00F7}"),
        ("\\ast", "\u{2217}"),
        ("\\leqslant", "\u{2a7d}"),
        ("\\geqslant", "\u{2a7e}"),
        ("\\leq", "\u{2264}"),
        ("\\geq", "\u{2265}"),
        ("\\le", "\u{2264}"),
        ("\\ge", "\u{2265}"),
        ("\\gg", "\u{226b}"),
        ("\\ll", "\u{226a}"),
        ("\\neq", "\u{2260}"),
        ("\\ne", "\u{2260}"),
        ("\\approx", "\u{2248}"),
        ("\\propto", "\u{221d}"),
        ("\\sim", "\u{223c}"),
        ("\\equiv", "\u{2261}"),
        ("\\perp", "\u{22a5}"),
        ("\\parallel", "\u{2225}"),
        ("\\asymp", "\u{224D}"),
        ("\\doteq", "\u{2250}"),
        ("\\nleq", "\u{2270}"),
        ("\\ngeq", "\u{2271}"),
        ("\\nless", "\u{226E}"),
        ("\\ngtr", "\u{226F}"),
        ("\\lneqq", "\u{2268}"),
        ("\\gneqq", "\u{2269}"),
        ("\\subseteq", "\u{2286}"),
        ("\\supseteq", "\u{2287}"),
        ("\\nsubseteq", "\u{2288}"),
        ("\\nsupseteq", "\u{2289}"),
        ("\\sqsubseteq", "\u{2291}"),
        ("\\sqsupseteq", "\u{2292}"),
        ("\\sqsubset", "\u{228F}"),
        ("\\sqsupset", "\u{2290}"),
        ("\\subset", "\u{2282}"),
        ("\\supset", "\u{2283}"),
        ("\\notin", "\u{2209}"),
        ("\\ni", "\u{220B}"),
        ("\\in", "\u{2208}"),
        ("\\infty", "\u{221e}"),
        ("\\cap", "\u{2229}"),
        ("\\cup", "\u{222a}"),
        ("\\emptyset", "\u{2205}"),
        ("\\varnothing", "\u{2205}"),
        ("\\ell", "\u{2113}"),
        ("\\hbar", "\u{210f}"),
        ("\\wp", "\u{2118}"),
        ("\\Re", "\u{211c}"),
        ("\\Im", "\u{2111}"),
        ("\\partial", "\u{2202}"),
        ("\\nabla", "\u{2207}"),
        ("\\forall", "\u{2200}"),
        ("\\exists", "\u{2203}"),
        ("\\nexists", "\u{2204}"),
        ("\\complement", "\u{2201}"),
        ("\\wedge", "\u{2227}"),
        ("\\vee", "\u{2228}"),
        ("\\neg", "\u{00ac}"),
        ("\\land", "\u{2227}"),
        ("\\lor", "\u{2228}"),
        ("\\lnot", "\u{00AC}"),
        ("\\top", "\u{22A4}"),
        ("\\oplus", "\u{2295}"),
        ("\\otimes", "\u{2297}"),
        ("\\odot", "\u{2299}"),
        ("\\circ", "\u{2218}"),
        ("\\cdot", "\u{00b7}"),
        ("\\bullet", "\u{2022}"),
        ("\\star", "\u{22c6}"),
        ("\\dagger", "\u{2020}"),
        ("\\ddagger", "\u{2021}"),
        ("\\wr", "\u{2240}"),
        ("\\diamond", "\u{22C4}"),
        ("\\bigtriangleup", "\u{25B3}"),
        ("\\bigtriangledown", "\u{25BD}"),
        ("\\trianglelefteq", "\u{22B4}"),
        ("\\trianglerighteq", "\u{22B5}"),
        ("\\ntriangleleft", "\u{22EA}"),
        ("\\ntriangleright", "\u{22EB}"),
        ("\\vartriangleleft", "\u{22B2}"),
        ("\\vartriangleright", "\u{22B3}"),
        ("\\triangleleft", "\u{25C1}"),
        ("\\triangleright", "\u{25B7}"),
        ("\\lhd", "\u{22B2}"),
        ("\\rhd", "\u{22B3}"),
        ("\\amalg", "\u{2A3F}"),
        ("\\lesssim", "\u{2272}"),
        ("\\gtrsim", "\u{2273}"),
        ("\\simeq", "\u{2243}"),
        ("\\cong", "\u{2245}"),
        ("\\ncong", "\u{2247}"),
        ("\\nsim", "\u{2241}"),
        ("\\prec", "\u{227a}"),
        ("\\succ", "\u{227b}"),
        ("\\nprec", "\u{2280}"),
        ("\\nsucc", "\u{2281}"),
        ("\\preceq", "\u{2aaf}"),
        ("\\succeq", "\u{2ab0}"),
        ("\\bowtie", "\u{22C8}"),
        ("\\smile", "\u{2323}"),
        ("\\frown", "\u{2322}"),
        ("\\vdash", "\u{22a2}"),
        ("\\dashv", "\u{22a3}"),
        ("\\models", "\u{22a8}"),
        ("\\mid", "\u{2223}"),
        ("\\nmid", "\u{2224}"),
        ("\\nparallel", "\u{2226}"),
        ("\\sum", "\u{2211}"),
        ("\\prod", "\u{220F}"),
        ("\\coprod", "\u{2210}"),
        ("\\int", "\u{222B}"),
        ("\\iint", "\u{222C}"),
        ("\\iiint", "\u{222D}"),
        ("\\oint", "\u{222E}"),
        ("\\bigcup", "\u{22C3}"),
        ("\\bigcap", "\u{22C2}"),
        ("\\bigoplus", "\u{2A01}"),
        ("\\bigotimes", "\u{2A02}"),
        ("\\bigvee", "\u{22C1}"),
        ("\\bigwedge", "\u{22C0}"),
        ("\\bigsqcup", "\u{2A06}"),
        ("\\langle", "\u{27e8}"),
        ("\\rangle", "\u{27e9}"),
        ("\\lceil", "\u{2308}"),
        ("\\rceil", "\u{2309}"),
        ("\\lfloor", "\u{230a}"),
        ("\\rfloor", "\u{230b}"),
        ("\\lbrace", "{"),
        ("\\rbrace", "}"),
        ("\\lbrack", "["),
        ("\\rbrack", "]"),
        ("\\vert", "|"),
        ("\\Vert", "\u{2016}"),
        ("\\thickapprox", "\u{2248}"),
        ("\\thicksim", "\u{223c}"),
        ("\\triangle", "\u{25b3}"),
        ("\\square", "\u{25a1}"),
        ("\\Diamond", "\u{25C7}"),
        ("\\Uparrow", "\u{21D1}"),
        ("\\Downarrow", "\u{21D3}"),
        ("\\updownarrow", "\u{2195}"),
        ("\\Updownarrow", "\u{21D5}"),
        ("\\uparrow", "\u{2191}"),
        ("\\downarrow", "\u{2193}"),
        ("\\nearrow", "\u{2197}"),
        ("\\nwarrow", "\u{2196}"),
        ("\\searrow", "\u{2198}"),
        ("\\swarrow", "\u{2199}"),
        ("\\hookrightarrow", "\u{21aa}"),
        ("\\hookleftarrow", "\u{21a9}"),
        ("\\Longrightarrow", "\u{27F9}"),
        ("\\Longleftarrow", "\u{27F8}"),
        ("\\Longleftrightarrow", "\u{27FA}"),
        ("\\longleftrightarrow", "\u{27F7}"),
        ("\\longrightarrow", "\u{27f6}"),
        ("\\longleftarrow", "\u{27f5}"),
        ("\\longmapsto", "\u{27fc}"),
        ("\\rightsquigarrow", "\u{21DD}"),
        ("\\leftrightsquigarrow", "\u{21AD}"),
        ("\\rightharpoonup", "\u{21C0}"),
        ("\\rightharpoondown", "\u{21C1}"),
        ("\\leftharpoonup", "\u{21BC}"),
        ("\\leftharpoondown", "\u{21BD}"),
        ("\\rightleftharpoons", "\u{21CC}"),
        ("\\leftrightharpoons", "\u{21CB}"),
        ("\\twoheadrightarrow", "\u{21A0}"),
        ("\\twoheadleftarrow", "\u{219E}"),
        ("\\rightarrowtail", "\u{21A3}"),
        ("\\leftarrowtail", "\u{21A2}"),
        ("\\curvearrowright", "\u{21B7}"),
        ("\\curvearrowleft", "\u{21B6}"),
        ("\\circlearrowright", "\u{21BB}"),
        ("\\circlearrowleft", "\u{21BA}"),
        ("\\rightarrow", "\u{2192}"),
        ("\\leftarrow", "\u{2190}"),
        ("\\Rightarrow", "\u{21d2}"),
        ("\\Leftarrow", "\u{21d0}"),
        ("\\leftrightarrow", "\u{2194}"),
        ("\\Leftrightarrow", "\u{21d4}"),
        ("\\mapsto", "\u{21a6}"),
        ("\\multimap", "\u{22B8}"),
        ("\\to", "\u{2192}"),
        ("\\setminus", "\u{2216}"),
        ("\\backslash", "\u{005C}"),
        ("\\colon", ":"),
        ("\\lvert", "|"),
        ("\\rvert", "|"),
        ("\\lVert", "\u{2016}"),
        ("\\rVert", "\u{2016}"),
        ("\\aleph", "\u{2135}"),
        ("\\beth", "\u{2136}"),
        ("\\gimel", "\u{2137}"),
        ("\\daleth", "\u{2138}"),
        ("\\angle", "\u{2220}"),
        ("\\measuredangle", "\u{2221}"),
        ("\\sphericalangle", "\u{2222}"),
        ("\\therefore", "\u{2234}"),
        ("\\because", "\u{2235}"),
        ("\\sharp", "\u{266F}"),
        ("\\flat", "\u{266D}"),
        ("\\natural", "\u{266E}"),
        ("\\clubsuit", "\u{2663}"),
        ("\\diamondsuit", "\u{2662}"),
        ("\\heartsuit", "\u{2661}"),
        ("\\spadesuit", "\u{2660}"),
        ("\\imath", "\u{0131}"),
        ("\\jmath", "\u{0237}"),
        ("\\degree", "\u{00B0}"),
        ("\\checkmark", "\u{2713}"),
        ("\\prime", "\u{2032}"),
        ("\\backprime", "\u{2035}"),
        ("\\varprojlim", "proj lim"),
        ("\\varinjlim", "inj lim"),
        ("\\lambdabar", "\u{019B}"),
    ]
}

fn math_symbol_list() -> (res: Vec<(&'static str, &'static str)>)
    ensures
        res@ == math_symbol_pairs(),
{
    vec![
        ("\\ldots", "\u{2026}"),
        ("\\dots", "\u{2026}"),
        ("\\cdots", "\u{22ef}"),
        ("\\times", "\u{00d7}"),
        ("\\pm", "\u{00b1}"),
        ("\\mp", "\u{2213}"),
        ("\\div", "\u{00F7}"),
        ("\\ast", "\u{2217}"),
        ("\\leqslant", "\u{2a7d}"),
        ("\\geqslant", "\u{2a7e}"),
        ("\\leq", "\u{2264}"),
        ("\\geq", "\u{2265}"),
        ("\\le", "\u{2264}"),
        ("\\ge", "\u{2265}"),
        ("\\gg", "\u{226b}"),
        ("\\ll", "\u{226a}"),
        ("\\neq", "\u{2260}"),
        ("\\ne", "\u{2260}"),
        ("\\approx", "\u{2248}"),
        ("\\propto", "\u{221d}"),
        ("\\sim", "\u{223c}"),
        ("\\equiv", "\u{2261}"),
        ("\\perp", "\u{22a5}"),
        ("\\parallel", "\u{2225}"),
        ("\\asymp", "\u{224D}"),
        ("\\doteq", "\u{2250}"),
        ("\\nleq", "\u{2270}"),
        ("\\ngeq", "\u{2271}"),
        ("\\nless", "\u{226E}"),
        ("\\ngtr", "\u{226F}"),
        ("\\lneqq", "\u{2268}"),
        ("\\gneqq", "\u{2269}"),
        ("\\subseteq", "\u{2286}"),
        ("\\supseteq", "\u{2287}"),
        ("\\nsubseteq", "\u{2288}"),
        ("\\nsupseteq", "\u{2289}"),
        ("\\sqsubseteq", "\u{2291}"),
        ("\\sqsupseteq", "\u{2292}"),
        ("\\sqsubset", "\u{228F}"),
        ("\\sqsupset", "\u{2290}"),
        ("\\subset", "\u{2282}"),
        ("\\supset", "\u{2283}"),
        ("\\notin", "\u{2209}"),
        ("\\ni", "\u{220B}"),
        ("\\in", "\u{2208}"),
        ("\\infty", "\u{221e}"),
        ("\\cap", "\u{2229}"),
        ("\\cup", "\u{222a}"),
        ("\\emptyset", "\u{2205}"),
        ("\\varnothing", "\u{2205}"),
        ("\\ell", "\u{2113}"),
        ("\\hbar", "\u{210f}"),
        ("\\wp", "\u{2118}"),
        ("\\Re", "\u{211c}"),
        ("\\Im", "\u{2111}"),
        ("\\partial", "\u{2202}"),
        ("\\nabla", "\u{2207}"),
        ("\\forall", "\u{2200}"),
        ("\\exists", "\u{2203}"),
        ("\\nexists", "\u{2204}"),
        ("\\complement", "\u{2201}"),
        ("\\wedge", "\u{2227}"),
        ("\\vee", "\u{2228}"),
        ("\\neg", "\u{00ac}"),
        ("\\land", "\u{2227}"),
        ("\\lor", "\u{2228}"),
        ("\\lnot", "\u{00AC}"),
        ("\\top", "\u{22A4}"),
        ("\\oplus", "\u{2295}"),
        ("\\otimes", "\u{2297}"),
        ("\\odot", "\u{2299}"),
        ("\\circ", "\u{2218}"),
        ("\\cdot", "\u{00b7}"),
        ("\\bullet", "\u{2022}"),
        ("\\star", "\u{22c6}"),
        ("\\dagger", "\u{2020}"),
        ("\\ddagger", "\u{2021}"),
        ("\\wr", "\u{2240}"),
        ("\\diamond", "\u{22C4}"),
        ("\\bigtriangleup", "\u{25B3}"),
        ("\\bigtriangledown", "\u{25BD}"),
        ("\\trianglelefteq", "\u{22B4}"),
        ("\\trianglerighteq", "\u{22B5}"),
        ("\\ntriangleleft", "\u{22EA}"),
        ("\\ntriangleright", "\u{22EB}"),
        ("\\vartriangleleft", "\u{22B2}"),
        ("\\vartriangleright", "\u{22B3}"),
        ("\\triangleleft", "\u{25C1}"),
        ("\\triangleright", "\u{25B7}"),
        ("\\lhd", "\u{22B2}"),
        ("\\rhd", "\u{22B3}"),
        ("\\amalg", "\u{2A3F}"),
        ("\\lesssim", "\u{2272}"),
        ("\\gtrsim", "\u{2273}"),
        ("\\simeq", "\u{2243}"),
        ("\\cong", "\u{2245}"),
        ("\\ncong", "\u{2247}"),
        ("\\nsim", "\u{2241}"),
        ("\\prec", "\u{227a}"),
        ("\\succ", "\u{227b}"),
        ("\\nprec", "\u{2280}"),
        ("\\nsucc", "\u{2281}"),
        ("\\preceq", "\u{2aaf}"),
        ("\\succeq", "\u{2ab0}"),
        ("\\bowtie", "\u{22C8}"),
        ("\\smile", "\u{2323}"),
        ("\\frown", "\u{2322}"),
        ("\\vdash", "\u{22a2}"),
        ("\\dashv", "\u{22a3}"),
        ("\\models", "\u{22a8}"),
        ("\\mid", "\u{2223}"),
        ("\\nmid", "\u{2224}"),
        ("\\nparallel", "\u{2226}"),
        ("\\sum", "\u{2211}"),
        ("\\prod", "\u{220F}"),
        ("\\coprod", "\u{2210}"),
        ("\\int", "\u{222B}"),
        ("\\iint", "\u{222C}"),
        ("\\iiint", "\u{222D}"),
        ("\\oint", "\u{222E}"),
        ("\\bigcup", "\u{22C3}"),
        ("\\bigcap", "\u{22C2}"),
        ("\\bigoplus", "\u{2A01}"),
        ("\\bigotimes", "\u{2A02}"),
        ("\\bigvee", "\u{22C1}"),
        ("\\bigwedge", "\u{22C0}"),
        ("\\bigsqcup", "\u{2A06}"),
        ("\\langle", "\u{27e8}"),
        ("\\rangle", "\u{27e9}"),
        ("\\lceil", "\u{2308}"),
        ("\\rceil", "\u{2309}"),
        ("\\lfloor", "\u{230a}"),
        ("\\rfloor", "\u{230b}"),
        ("\\lbrace", "{"),
        ("\\rbrace", "}"),
        ("\\lbrack", "["),
        ("\\rbrack", "]"),
        ("\\vert", "|"),
        ("\\Vert", "\u{2016}"),
        ("\\thickapprox", "\u{2248}"),
        ("\\thicksim", "\u{223c}"),
        ("\\triangle", "\u{25b3}"),
        ("\\square", "\u{25a1}"),
        ("\\Diamond", "\u{25C7}"),
        ("\\Uparrow", "\u{21D1}"),
        ("\\Downarrow", "\u{21D3}"),
        ("\\updownarrow", "\u{2195}"),
        ("\\Updownarrow", "\u{21D5}"),
        ("\\uparrow", "\u{2191}"),
        ("\\downarrow", "\u{2193}"),
        ("\\nearrow", "\u{2197}"),
        ("\\nwarrow", "\u{2196}"),
        ("\\searrow", "\u{2198}"),
        ("\\swarrow", "\u{2199}"),
        ("\\hookrightarrow", "\u{21aa}"),
        ("\\hookleftarrow", "\u{21a9}"),
        ("\\Longrightarrow", "\u{27F9}"),
        ("\\Longleftarrow", "\u{27F8}"),
        ("\\Longleftrightarrow", "\u{27FA}"),
        ("\\longleftrightarrow", "\u{27F7}"),
        ("\\longrightarrow", "\u{27f6}"),
        ("\\longleftarrow", "\u{27f5}"),
        ("\\longmapsto", "\u{27fc}"),
        ("\\rightsquigarrow", "\u{21DD}"),
        ("\\leftrightsquigarrow", "\u{21AD}"),
        ("\\rightharpoonup", "\u{21C0}"),
        ("\\rightharpoondown", "\u{21C1}"),
        ("\\leftharpoonup", "\u{21BC}"),
        ("\\leftharpoondown", "\u{21BD}"),
        ("\\rightleftharpoons", "\u{21CC}"),
        ("\\leftrightharpoons", "\u{21CB}"),
        ("\\twoheadrightarrow", "\u{21A0}"),
        ("\\twoheadleftarrow", "\u{219E}"),
        ("\\rightarrowtail", "\u{21A3}"),
        ("\\leftarrowtail", "\u{21A2}"),
        ("\\curvearrowright", "\u{21B7}"),
        ("\\curvearrowleft", "\u{21B6}"),
        ("\\circlearrowright", "\u{21BB}"),
        ("\\circlearrowleft", "\u{21BA}"),
        ("\\rightarrow", "\u{2192}"),
        ("\\leftarrow", "\u{2190}"),
        ("\\Rightarrow", "\u{21d2}"),
        ("\\Leftarrow", "\u{21d0}"),
        ("\\leftrightarrow", "\u{2194}"),
        ("\\Leftrightarrow", "\u{21d4}"),
        ("\\mapsto", "\u{21a6}"),
        ("\\multimap", "\u{22B8}"),
        ("\\to", "\u{2192}"),
        ("\\setminus", "\u{2216}"),
        ("\\backslash", "\u{005C}"),
        ("\\colon", ":"),
        ("\\lvert", "|"),
        ("\\rvert", "|"),
        ("\\lVert", "\u{2016}"),
        ("\\rVert", "\u{2016}"),
        ("\\aleph", "\u{2135}"),
        ("\\beth", "\u{2136}"),
        ("\\gimel", "\u{2137}"),
        ("\\daleth", "\u{2138}"),
        ("\\angle", "\u{2220}"),
        ("\\measuredangle", "\u{2221}"),
        ("\\sphericalangle", "\u{2222}"),
        ("\\therefore", "\u{2234}"),
        ("\\because", "\u{2235}"),
        ("\\sharp", "\u{266F}"),
        ("\\flat", "\u{266D}"),
        ("\\natural", "\u{266E}"),
        ("\\clubsuit", "\u{2663}"),
        ("\\diamondsuit", "\u{2662}"),
        ("\\heartsuit", "\u{2661}"),
        ("\\spadesuit", "\u{2660}"),
        ("\\imath", "\u{0131}"),
        ("\\jmath", "\u{0237}"),
        ("\\degree", "\u{00B0}"),
        ("\\checkmark", "\u{2713}"),
        ("\\prime", "\u{2032}"),
        ("\\backprime", "\u{2035}"),
        ("\\varprojlim", "proj lim"),
        ("\\varinjlim", "inj lim"),
        ("\\lambdabar", "\u{019B}"),
    ]
}

/// Greek letter commands and their characters.
pub open spec fn greek_letter_pairs() -> Seq<(&'static str, &'static str)> {
    seq![
        ("\\alpha", "\u{03b1}"),
        ("\\beta", "\u{03b2}"),
        ("\\gamma", "\u{03b3}"),
        ("\\delta", "\u{03b4}"),
        ("\\epsilon", "\u{03b5}"),
        ("\\varepsilon", "\u{03b5}"),
        ("\\zeta", "\u{03b6}"),
        ("\\eta", "\u{03b7}"),
        ("\\theta", "\u{03b8}"),
        ("\\vartheta", "\u{03d1}"),
        ("\\iota", "\u{03b9}"),
        ("\\kappa", "\u{03ba}"),
        ("\\lambda", "\u{03bb}"),
        ("\\mu", "\u{03bc}"),
        ("\\nu", "\u{03bd}"),
        ("\\xi", "\u{03be}"),
        ("\\pi", "\u{03c0}"),
        ("\\varpi", "\u{03D6}"),
        ("\\rho", "\u{03c1}"),
        ("\\varrho", "\u{03F1}"),
        ("\\sigma", "\u{03c3}"),
        ("\\varsigma", "\u{03C2}"),
        ("\\tau", "\u{03c4}"),
        ("\\upsilon", "\u{03c5}"),
        ("\\phi", "\u{03c6}"),
        ("\\varphi", "\u{03c6}"),
        ("\\chi", "\u{03c7}"),
        ("\\psi", "\u{03c8}"),
        ("\\omega", "\u{03c9}"),
        ("\\Gamma", "\u{0393}"),
        ("\\Delta", "\u{0394}"),
        ("\\Theta", "\u{0398}"),
        ("\\Lambda", "\u{039b}"),
        ("\\Xi", "\u{039e}"),
        ("\\Pi", "\u{03a0}"),
        ("\\Sigma", "\u{03a3}"),
        ("\\Upsilon", "\u{03a5}"),
        ("\\Phi", "\u{03a6}"),
        ("\\Psi", "\u{03a8}"),
        ("\\Omega", "\u{03a9}"),
        ("\\digamma", "\u{03DD}"),
        ("\\Digamma", "\u{03DC}"),
        ("\\upalpha", "\u{03b1}"),
        ("\\upbeta", "\u{03b2}"),
        ("\\upgamma", "\u{03b3}"),
        ("\\updelta", "\u{03b4}"),
        ("\\upepsilon", "\u{03b5}"),
        ("\\upzeta", "\u{03b6}"),
        ("\\upeta", "\u{03b7}"),
        ("\\uptheta", "\u{03b8}"),
        ("\\upiota", "\u{03b9}"),
        ("\\upkappa", "\u{03ba}"),
        ("\\uplambda", "\u{03bb}"),
        ("\\upmu", "\u{03bc}"),
        ("\\upnu", "\u{03bd}"),
        ("\\upxi", "\u{03be}"),
        ("\\uppi", "\u{03c0}"),
        ("\\uprho", "\u{03c1}"),
        ("\\upsigma", "\u{03c3}"),
        ("\\uptau", "\u{03c4}"),
        ("\\upupsilon", "\u{03c5}"),
        ("\\upphi", "\u{03c6}"),
        ("\\upchi", "\u{03c7}"),
        ("\\uppsi", "\u{03c8}"),
        ("\\upomega", "\u{03c9}"),
    ]
}

fn greek_letter_list() -> (res: Vec<(&'static str, &'static str)>)
    ensures
        res@ == greek_letter_pairs(),
{
    vec![
        ("\\alpha", "\u{03b1}"),
        ("\\beta", "\u{03b2}"),
        ("\\gamma", "\u{03b3}"),
        ("\\delta", "\u{03b4}"),
        ("\\epsilon", "\u{03b5}"),
        ("\\varepsilon", "\u{03b5}"),
        ("\\zeta", "\u{03b6}"),
        ("\\eta", "\u{03b7}"),
        ("\\theta", "\u{03b8}"),
        ("\\vartheta", "\u{03d1}"),
        ("\\iota", "\u{03b9}"),
        ("\\kappa", "\u{03ba}"),
        ("\\lambda", "\u{03bb}"),
        ("\\mu", "\u{03bc}"),
        ("\\nu", "\u{03bd}"),
        ("\\xi", "\u{03be}"),
        ("\\pi", "\u{03c0}"),
        ("\\varpi", "\u{03D6}"),
        ("\\rho", "\u{03c1}"),
        ("\\varrho", "\u{03F1}"),
        ("\\sigma", "\u{03c3}"),
        ("\\varsigma", "\u{03C2}"),
        ("\\tau", "\u{03c4}"),
        ("\\upsilon", "\u{03c5}"),
        ("\\phi", "\u{03c6}"),
        ("\\varphi", "\u{03c6}"),
        ("\\chi", "\u{03c7}"),
        ("\\psi", "\u{03c8}"),
        ("\\omega", "\u{03c9}"),
        ("\\Gamma", "\u{0393}"),
        ("\\Delta", "\u{0394}"),
        ("\\Theta", "\u{0398}"),
        ("\\Lambda", "\u{039b}"),
        ("\\Xi", "\u{039e}"),
        ("\\Pi", "\u{03a0}"),
        ("\\Sigma", "\u{03a3}"),
        ("\\Upsilon", "\u{03a5}"),
        ("\\Phi", "\u{03a6}"),
        ("\\Psi", "\u{03a8}"),
        ("\\Omega", "\u{03a9}"),
        ("\\digamma", "\u{03DD}"),
        ("\\Digamma", "\u{03DC}"),
        ("\\upalpha", "\u{03b1}"),
        ("\\upbeta", "\u{03b2}"),
        ("\\upgamma", "\u{03b3}"),
        ("\\updelta", "\u{03b4}"),
        ("\\upepsilon", "\u{03b5}"),
        ("\\upzeta", "\u{03b6}"),
        ("\\upeta", "\u{03b7}"),
        ("\\uptheta", "\u{03b8}"),
        ("\\upiota", "\u{03b9}"),
        ("\\upkappa", "\u{03ba}"),
        ("\\uplambda", "\u{03bb}"),
        ("\\upmu", "\u{03bc}"),
        ("\\upnu", "\u{03bd}"),
        ("\\upxi", "\u{03be}"),
        ("\\uppi", "\u{03c0}"),
        ("\\uprho", "\u{03c1}"),
        ("\\upsigma", "\u{03c3}"),
        ("\\uptau", "\u{03c4}"),
        ("\\upupsilon", "\u{03c5}"),
        ("\\upphi", "\u{03c6}"),
        ("\\upchi", "\u{03c7}"),
        ("\\uppsi", "\u{03c8}"),
        ("\\upomega", "\u{03c9}"),
    ]
}

/// The double-struck form of a letter or digit (the character itself otherwise).
pub open spec fn double_struck(ch: char) -> char {
    if ch == 'A' {
        '\u{1D538}'
    } else if ch == 'B' {
        '\u{1D539}'
    } else if ch == 'C' {
        '\u{2102}'
    } else if ch == 'D' {
        '\u{1D53B}'
    } else if ch == 'E' {
        '\u{1D53C}'
    } else if ch == 'F' {
        '\u{1D53D}'
    } else if ch == 'G' {
        '\u{1D53E}'
    } else if ch == 'H' {
        '\u{210D}'
    } else if ch == 'I' {
        '\u{1D540}'
    } else if ch == 'J' {
        '\u{1D541}'
    } else if ch == 'K' {
        '\u{1D542}'
    } else if ch == 'L' {
        '\u{1D543}'
    } else if ch == 'M' {
        '\u{1D544}'
    } else if ch == 'N' {
        '\u{2115}'
    } else if ch == 'O' {
        '\u{1D546}'
    } else if ch == 'P' {
        '\u{2119}'
    } else if ch == 'Q' {
        '\u{211A}'
    } else if ch == 'R' {
        '\u{211D}'
    } else if ch == 'S' {
        '\u{1D54A}'
    } else if ch == 'T' {
        '\u{1D54B}'
    } else if ch == 'U' {
        '\u{1D54C}'
    } else if ch == 'V' {
        '\u{1D54D}'
    } else if ch == 'W' {
        '\u{1D54E}'
    } else if ch == 'X' {
        '\u{1D54F}'
    } else if ch == 'Y' {
        '\u{1D550}'
    } else if ch == 'Z' {
        '\u{2124}'
    } else if ch == 'a' {
        '\u{1D552}'
    } else if ch == 'b' {
        '\u{1D553}'
    } else if ch == 'c' {
        '\u{1D554}'
    } else if ch == 'd' {
        '\u{1D555}'
    } else if ch == 'e' {
        '\u{1D556}'
    } else if ch == 'f' {
        '\u{1D557}'
    } else if ch == 'g' {
        '\u{1D558}'
    } else if ch == 'h' {
        '\u{1D559}'
    } else if ch == 'i' {
        '\u{1D55A}'
    } else if ch == 'j' {
        '\u{1D55B}'
    } else if ch == 'k' {
        '\u{1D55C}'
    } else if ch == 'l' {
        '\u{1D55D}'
    } else if ch == 'm' {
        '\u{1D55E}'
    } else if ch == 'n' {
        '\u{1D55F}'
    } else if ch == 'o' {
        '\u{1D560}'
    } else if ch == 'p' {
        '\u{1D561}'
    } else if ch == 'q' {
        '\u{1D562}'
    } else if ch == 'r' {
        '\u{1D563}'
    } else if ch == 's' {
        '\u{1D564}'
    } else if ch == 't' {
        '\u{1D565}'
    } else if ch == 'u' {
        '\u{1D566}'
    } else if ch == 'v' {
        '\u{1D567}'
    } else if ch == 'w' {
        '\u{1D568}'
    } else if ch == 'x' {
        '\u{1D569}'
    } else if ch == 'y' {
        '\u{1D56A}'
    } else if ch == 'z' {
        '\u{1D56B}'
    } else if ch == '0' {
        '\u{1D7D8}'
    } else if ch == '1' {
        '\u{1D7D9}'
    } else if ch == '2' {
        '\u{1D7DA}'
    } else if ch == '3' {
        '\u{1D7DB}'
    } else if ch == '4' {
        '\u{1D7DC}'
    } else if ch == '5' {
        '\u{1D7DD}'
    } else if ch == '6' {
        '\u{1D7DE}'
    } else if ch == '7' {
        '\u{1D7DF}'
    } else if ch == '8' {
        '\u{1D7E0}'
    } else if ch == '9' {
        '\u{1D7E1}'
    } else {
        ch
    }
}

fn mathbb_char(ch: char) -> (res: char)
    ensures
        res == double_struck(ch),
{
    if ch == 'A' {
        '\u{1D538}'
    } else if ch == 'B' {
        '\u{1D539}'
    } else if ch == 'C' {
        '\u{2102}'
    } else if ch == 'D' {
        '\u{1D53B}'
    } else if ch == 'E' {
        '\u{1D53C}'
    } else if ch == 'F' {
        '\u{1D53D}'
    } else if ch == 'G' {
        '\u{1D53E}'
    } else if ch == 'H' {
        '\u{210D}'
    } else if ch == 'I' {
        '\u{1D540}'
    } else if ch == 'J' {
        '\u{1D541}'
    } else if ch == 'K' {
        '\u{1D542}'
    } else if ch == 'L' {
        '\u{1D543}'
    } else if ch == 'M' {
        '\u{1D544}'
    } else if ch == 'N' {
        '\u{2115}'
    } else if ch == 'O' {
        '\u{1D546}'
    } else if ch == 'P' {
        '\u{2119}'
    } else if ch == 'Q' {
        '\u{211A}'
    } else if ch == 'R' {
        '\u{211D}'
    } else if ch == 'S' {
        '\u{1D54A}'
    } else if ch == 'T' {
        '\u{1D54B}'
    } else if ch == 'U' {
        '\u{1D54C}'
    } else if ch == 'V' {
        '\u{1D54D}'
    } else if ch == 'W' {
        '\u{1D54E}'
    } else if ch == 'X' {
        '\u{1D54F}'
    } else if ch == 'Y' {
        '\u{1D550}'
    } else if ch == 'Z' {
        '\u{2124}'
    } else if ch == 'a' {
        '\u{1D552}'
    } else if ch == 'b' {
        '\u{1D553}'
    } else if ch == 'c' {
        '\u{1D554}'
    } else if ch == 'd' {
        '\u{1D555}'
    } else if ch == 'e' {
        '\u{1D556}'
    } else if ch == 'f' {
        '\u{1D557}'
    } else if ch == 'g' {
        '\u{1D558}'
    } else if ch == 'h' {
        '\u{1D559}'
    } else if ch == 'i' {
        '\u{1D55A}'
    } else if ch == 'j' {
        '\u{1D55B}'
    } else if ch == 'k' {
        '\u{1D55C}'
    } else if ch == 'l' {
        '\u{1D55D}'
    } else if ch == 'm' {
        '\u{1D55E}'
    } else if ch == 'n' {
        '\u{1D55F}'
    } else if ch == 'o' {
        '\u{1D560}'
    } else if ch == 'p' {
        '\u{1D561}'
    } else if ch == 'q' {
        '\u{1D562}'
    } else if ch == 'r' {
        '\u{1D563}'
    } else if ch == 's' {
        '\u{1D564}'
    } else if ch == 't' {
        '\u{1D565}'
    } else if ch == 'u' {
        '\u{1D566}'
    } else if ch == 'v' {
        '\u{1D567}'
    } else if ch == 'w' {
        '\u{1D568}'
    } else if ch == 'x' {
        '\u{1D569}'
    } else if ch == 'y' {
        '\u{1D56A}'
    } else if ch == 'z' {
        '\u{1D56B}'
    } else if ch == '0' {
        '\u{1D7D8}'
    } else if ch == '1' {
        '\u{1D7D9}'
    } else if ch == '2' {
        '\u{1D7DA}'
    } else if ch == '3' {
        '\u{1D7DB}'
    } else if ch == '4' {
        '\u{1D7DC}'
    } else if ch == '5' {
        '\u{1D7DD}'
    } else if ch == '6' {
        '\u{1D7DE}'
    } else if ch == '7' {
        '\u{1D7DF}'
    } else if ch == '8' {
        '\u{1D7E0}'
    } else if ch == '9' {
        '\u{1D7E1}'
    } else {
        ch
    }
}

/// The script form of a letter (the character itself otherwise).
pub open spec fn script_form(ch: char) -> char {
    if ch == 'A' {
        '\u{1D49C}'
    } else if ch == 'B' {
        '\u{212C}'
    } else if ch == 'C' {
        '\u{1D49E}'
    } else if ch == 'D' {
        '\u{1D49F}'
    } else if ch == 'E' {
        '\u{2130}'
    } else if ch == 'F' {
        '\u{2131}'
    } else if ch == 'G' {
        '\u{1D4A2}'
    } else if ch == 'H' {
        '\u{210B}'
    } else if ch == 'I' {
        '\u{2110}'
    } else if ch == 'J' {
        '\u{1D4A5}'
    } else if ch == 'K' {
        '\u{1D4A6}'
    } else if ch == 'L' {
        '\u{2112}'
    } else if ch == 'M' {
        '\u{2133}'
    } else if ch == 'N' {
        '\u{1D4A9}'
    } else if ch == 'O' {
        '\u{1D4AA}'
    } else if ch == 'P' {
        '\u{1D4AB}'
    } else if ch == 'Q' {
        '\u{1D4AC}'
    } else if ch == 'R' {
        '\u{211B}'
    } else if ch == 'S' {
        '\u{1D4AE}'
    } else if ch == 'T' {
        '\u{1D4AF}'
    } else if ch == 'U' {
        '\u{1D4B0}'
    } else if ch == 'V' {
        '\u{1D4B1}'
    } else if ch == 'W' {
        '\u{1D4B2}'
    } else if ch == 'X' {
        '\u{1D4B3}'
    } else if ch == 'Y' {
        '\u{1D4B4}'
    } else if ch == 'Z' {
        '\u{1D4B5}'
    } else if ch == 'a' {
        '\u{1D4B6}'
    } else if ch == 'b' {
        '\u{1D4B7}'
    } else if ch == 'c' {
        '\u{1D4B8}'
    } else if ch == 'd' {
        '\u{1D4B9}'
    } else if ch == 'e' {
        '\u{212F}'
    } else if ch == 'f' {
        '\u{1D4BB}'
    } else if ch == 'g' {
        '\u{210A}'
    } else if ch == 'h' {
        '\u{1D4BD}'
    } else if ch == 'i' {
        '\u{1D4BE}'
    } else if ch == 'j' {
        '\u{1D4BF}'
    } else if ch == 'k' {
        '\u{1D4C0}'
    } else if ch == 'l' {
        '\u{1D4C1}'
    } else if ch == 'm' {
        '\u{1D4C2}'
    } else if ch == 'n' {
        '\u{1D4C3}'
    } else if ch == 'o' {
        '\u{2134}'
    } else if ch == 'p' {
        '\u{1D4C5}'
    } else if ch == 'q' {
        '\u{1D4C6}'
    } else if ch == 'r' {
        '\u{1D4C7}'
    } else if ch == 's' {
        '\u{1D4C8}'
    } else if ch == 't' {
        '\u{1D4C9}'
    } else if ch == 'u' {
        '\u{1D4CA}'
    } else if ch == 'v' {
        '\u{1D4CB}'
    } else if ch == 'w' {
        '\u{1D4CC}'
    } else if ch == 'x' {
        '\u{1D4CD}'
    } else if ch == 'y' {
        '\u{1D4CE}'
    } else if ch == 'z' {
        '\u{1D4CF}'
    } else {
        ch
    }
}

fn mathscript_char(ch: char) -> (res: char)
    ensures
        res == script_form(ch),
{
    if ch == 'A' {
        '\u{1D49C}'
    } else if ch == 'B' {
        '\u{212C}'
    } else if ch == 'C' {
        '\u{1D49E}'
    } else if ch == 'D' {
        '\u{1D49F}'
    } else if ch == 'E' {
        '\u{2130}'
    } else if ch == 'F' {
        '\u{2131}'
    } else if ch == 'G' {
        '\u{1D4A2}'
    } else if ch == 'H' {
        '\u{210B}'
    } else if ch == 'I' {
        '\u{2110}'
    } else if ch == 'J' {
        '\u{1D4A5}'
    } else if ch == 'K' {
        '\u{1D4A6}'
    } else if ch == 'L' {
        '\u{2112}'
    } else if ch == 'M' {
        '\u{2133}'
    } else if ch == 'N' {
        '\u{1D4A9}'
    } else if ch == 'O' {
        '\u{1D4AA}'
    } else if ch == 'P' {
        '\u{1D4AB}'
    } else if ch == 'Q' {
        '\u{1D4AC}'
    } else if ch == 'R' {
        '\u{211B}'
    } else if ch == 'S' {
        '\u{1D4AE}'
    } else if ch == 'T' {
        '\u{1D4AF}'
    } else if ch == 'U' {
        '\u{1D4B0}'
    } else if ch == 'V' {
        '\u{1D4B1}'
    } else if ch == 'W' {
        '\u{1D4B2}'
    } else if ch == 'X' {
        '\u{1D4B3}'
    } else if ch == 'Y' {
        '\u{1D4B4}'
    } else if ch == 'Z' {
        '\u{1D4B5}'
    } else if ch == 'a' {
        '\u{1D4B6}'
    } else if ch == 'b' {
        '\u{1D4B7}'
    } else if ch == 'c' {
        '\u{1D4B8}'
    } else if ch == 'd' {
        '\u{1D4B9}'
    } else if ch == 'e' {
        '\u{212F}'
    } else if ch == 'f' {
        '\u{1D4BB}'
    } else if ch == 'g' {
        '\u{210A}'
    } else if ch == 'h' {
        '\u{1D4BD}'
    } else if ch == 'i' {
        '\u{1D4BE}'
    } else if ch == 'j' {
        '\u{1D4BF}'
    } else if ch == 'k' {
        '\u{1D4C0}'
    } else if ch == 'l' {
        '\u{1D4C1}'
    } else if ch == 'm' {
        '\u{1D4C2}'
    } else if ch == 'n' {
        '\u{1D4C3}'
    } else if ch == 'o' {
        '\u{2134}'
    } else if ch == 'p' {
        '\u{1D4C5}'
    } else if ch == 'q' {
        '\u{1D4C6}'
    } else if ch == 'r' {
        '\u{1D4C7}'
    } else if ch == 's' {
        '\u{1D4C8}'
    } else if ch == 't' {
        '\u{1D4C9}'
    } else if ch == 'u' {
        '\u{1D4CA}'
    } else if ch == 'v' {
        '\u{1D4CB}'
    } else if ch == 'w' {
        '\u{1D4CC}'
    } else if ch == 'x' {
        '\u{1D4CD}'
    } else if ch == 'y' {
        '\u{1D4CE}'
    } else if ch == 'z' {
        '\u{1D4CF}'
    } else {
        ch
    }
}

/// The fraktur form of a letter (the character itself otherwise).
pub open spec fn fraktur_form(ch: char) -> char {
    if ch == 'A' {
        '\u{1D504}'
    } else if ch == 'B' {
        '\u{1D505}'
    } else if ch == 'C' {
        '\u{212D}'
    } else if ch == 'D' {
        '\u{1D507}'
    } else if ch == 'E' {
        '\u{1D508}'
    } else if ch == 'F' {
        '\u{1D509}'
    } else if ch == 'G' {
        '\u{1D50A}'
    } else if ch == 'H' {
        '\u{210C}'
    } else if ch == 'I' {
        '\u{2111}'
    } else if ch == 'J' {
        '\u{1D50D}'
    } else if ch == 'K' {
        '\u{1D50E}'
    } else if ch == 'L' {
        '\u{1D50F}'
    } else if ch == 'M' {
        '\u{1D510}'
    } else if ch == 'N' {
        '\u{1D511}'
    } else if ch == 'O' {
        '\u{1D512}'
    } else if ch == 'P' {
        '\u{1D513}'
    } else if ch == 'Q' {
        '\u{1D514}'
    } else if ch == 'R' {
        '\u{211C}'
    } else if ch == 'S' {
        '\u{1D516}'
    } else if ch == 'T' {
        '\u{1D517}'
    } else if ch == 'U' {
        '\u{1D518}'
    } else if ch == 'V' {
        '\u{1D519}'
    } else if ch == 'W' {
        '\u{1D51A}'
    } else if ch == 'X' {
        '\u{1D51B}'
    } else if ch == 'Y' {
        '\u{1D51C}'
    } else if ch == 'Z' {
        '\u{2128}'
    } else if ch == 'a' {
        '\u{1D51E}'
    } else if ch == 'b' {
        '\u{1D51F}'
    } else if ch == 'c' {
        '\u{1D520}'
    } else if ch == 'd' {
        '\u{1D521}'
    } else if ch == 'e' {
        '\u{1D522}'
    } else if ch == 'f' {
        '\u{1D523}'
    } else if ch == 'g' {
        '\u{1D524}'
    } else if ch == 'h' {
        '\u{1D525}'
    } else if ch == 'i' {
        '\u{1D526}'
    } else if ch == 'j' {
        '\u{1D527}'
    } else if ch == 'k' {
        '\u{1D528}'
    } else if ch == 'l' {
        '\u{1D529}'
    } else if ch == 'm' {
        '\u{1D52A}'
    } else if ch == 'n' {
        '\u{1D52B}'
    } else if ch == 'o' {
        '\u{1D52C}'
    } else if ch == 'p' {
        '\u{1D52D}'
    } else if ch == 'q' {
        '\u{1D52E}'
    } else if ch == 'r' {
        '\u{1D52F}'
    } else if ch == 's' {
        '\u{1D530}'
    } else if ch == 't' {
        '\u{1D531}'
    } else if ch == 'u' {
        '\u{1D532}'
    } else if ch == 'v' {
        '\u{1D533}'
    } else if ch == 'w' {
        '\u{1D534}'
    } else if ch == 'x' {
        '\u{1D535}'
    } else if ch == 'y' {
        '\u{1D536}'
    } else if ch == 'z' {
        '\u{1D537}'
    } else {
        ch
    }
}

fn mathfrak_char(ch: char) -> (res: char)
    ensures
        res == fraktur_form(ch),
{
    if ch == 'A' {
        '\u{1D504}'
    } else if ch == 'B' {
        '\u{1D505}'
    } else if ch == 'C' {
        '\u{212D}'
    } else if ch == 'D' {
        '\u{1D507}'
    } else if ch == 'E' {
        '\u{1D508}'
    } else if ch == 'F' {
        '\u{1D509}'
    } else if ch == 'G' {
        '\u{1D50A}'
    } else if ch == 'H' {
        '\u{210C}'
    } else if ch == 'I' {
        '\u{2111}'
    } else if ch == 'J' {
        '\u{1D50D}'
    } else if ch == 'K' {
        '\u{1D50E}'
    } else if ch == 'L' {
        '\u{1D50F}'
    } else if ch == 'M' {
        '\u{1D510}'
    } else if ch == 'N' {
        '\u{1D511}'
    } else if ch == 'O' {
        '\u{1D512}'
    } else if ch == 'P' {
        '\u{1D513}'
    } else if ch == 'Q' {
        '\u{1D514}'
    } else if ch == 'R' {
        '\u{211C}'
    } else if ch == 'S' {
        '\u{1D516}'
    } else if ch == 'T' {
        '\u{1D517}'
    } else if ch == 'U' {
        '\u{1D518}'
    } else if ch == 'V' {
        '\u{1D519}'
    } else if ch == 'W' {
        '\u{1D51A}'
    } else if ch == 'X' {
        '\u{1D51B}'
    } else if ch == 'Y' {
        '\u{1D51C}'
    } else if ch == 'Z' {
        '\u{2128}'
    } else if ch == 'a' {
        '\u{1D51E}'
    } else if ch == 'b' {
        '\u{1D51F}'
    } else if ch == 'c' {
        '\u{1D520}'
    } else if ch == 'd' {
        '\u{1D521}'
    } else if ch == 'e' {
        '\u{1D522}'
    } else if ch == 'f' {
        '\u{1D523}'
    } else if ch == 'g' {
        '\u{1D524}'
    } else if ch == 'h' {
        '\u{1D525}'
    } else if ch == 'i' {
        '\u{1D526}'
    } else if ch == 'j' {
        '\u{1D527}'
    } else if ch == 'k' {
        '\u{1D528}'
    } else if ch == 'l' {
        '\u{1D529}'
    } else if ch == 'm' {
        '\u{1D52A}'
    } else if ch == 'n' {
        '\u{1D52B}'
    } else if ch == 'o' {
        '\u{1D52C}'
    } else if ch == 'p' {
        '\u{1D52D}'
    } else if ch == 'q' {
        '\u{1D52E}'
    } else if ch == 'r' {
        '\u{1D52F}'
    } else if ch == 's' {
        '\u{1D530}'
    } else if ch == 't' {
        '\u{1D531}'
    } else if ch == 'u' {
        '\u{1D532}'
    } else if ch == 'v' {
        '\u{1D533}'
    } else if ch == 'w' {
        '\u{1D534}'
    } else if ch == 'x' {
        '\u{1D535}'
    } else if ch == 'y' {
        '\u{1D536}'
    } else if ch == 'z' {
        '\u{1D537}'
    } else {
        ch
    }
}

/// The sans-serif form of a letter (the character itself otherwise).
pub open spec fn sans_serif_form(ch: char) -> char {
    if ch == 'A' {
        '\u{1D5A0}'
    } else if ch == 'B' {
        '\u{1D5A1}'
    } else if ch == 'C' {
        '\u{1D5A2}'
    } else if ch == 'D' {
        '\u{1D5A3}'
    } else if ch == 'E' {
        '\u{1D5A4}'
    } else if ch == 'F' {
        '\u{1D5A5}'
    } else if ch == 'G' {
        '\u{1D5A6}'
    } else if ch == 'H' {
        '\u{1D5A7}'
    } else if ch == 'I' {
        '\u{1D5A8}'
    } else if ch == 'J' {
        '\u{1D5A9}'
    } else if ch == 'K' {
        '\u{1D5AA}'
    } else if ch == 'L' {
        '\u{1D5AB}'
    } else if ch == 'M' {
        '\u{1D5AC}'
    } else if ch == 'N' {
        '\u{1D5AD}'
    } else if ch == 'O' {
        '\u{1D5AE}'
    } else if ch == 'P' {
        '\u{1D5AF}'
    } else if ch == 'Q' {
        '\u{1D5B0}'
    } else if ch == 'R' {
        '\u{1D5B1}'
    } else if ch == 'S' {
        '\u{1D5B2}'
    } else if ch == 'T' {
        '\u{1D5B3}'
    } else if ch == 'U' {
        '\u{1D5B4}'
    } else if ch == 'V' {
        '\u{1D5B5}'
    } else if ch == 'W' {
        '\u{1D5B6}'
    } else if ch == 'X' {
        '\u{1D5B7}'
    } else if ch == 'Y' {
        '\u{1D5B8}'
    } else if ch == 'Z' {
        '\u{1D5B9}'
    } else if ch == 'a' {
        '\u{1D5BA}'
    } else if ch == 'b' {
        '\u{1D5BB}'
    } else if ch == 'c' {
        '\u{1D5BC}'
    } else if ch == 'd' {
        '\u{1D5BD}'
    } else if ch == 'e' {
        '\u{1D5BE}'
    } else if ch == 'f' {
        '\u{1D5BF}'
    } else if ch == 'g' {
        '\u{1D5C0}'
    } else if ch == 'h' {
        '\u{1D5C1}'
    } else if ch == 'i' {
        '\u{1D5C2}'
    } else if ch == 'j' {
        '\u{1D5C3}'
    } else if ch == 'k' {
        '\u{1D5C4}'
    } else if ch == 'l' {
        '\u{1D5C5}'
    } else if ch == 'm' {
        '\u{1D5C6}'
    } else if ch == 'n' {
        '\u{1D5C7}'
    } else if ch == 'o' {
        '\u{1D5C8}'
    } else if ch == 'p' {
        '\u{1D5C9}'
    } else if ch == 'q' {
        '\u{1D5CA}'
    } else if ch == 'r' {
        '\u{1D5CB}'
    } else if ch == 's' {
        '\u{1D5CC}'
    } else if ch == 't' {
        '\u{1D5CD}'
    } else if ch == 'u' {
        '\u{1D5CE}'
    } else if ch == 'v' {
        '\u{1D5CF}'
    } else if ch == 'w' {
        '\u{1D5D0}'
    } else if ch == 'x' {
        '\u{1D5D1}'
    } else if ch == 'y' {
        '\u{1D5D2}'
    } else if ch == 'z' {
        '\u{1D5D3}'
    } else {
        ch
    }
}

fn mathsf_char(ch: char) -> (res: char)
    ensures
        res == sans_serif_form(ch),
{
    if ch == 'A' {
        '\u{1D5A0}'
    } else if ch == 'B' {
        '\u{1D5A1}'
    } else if ch == 'C' {
        '\u{1D5A2}'
    } else if ch == 'D' {
        '\u{1D5A3}'
    } else if ch == 'E' {
        '\u{1D5A4}'
    } else if ch == 'F' {
        '\u{1D5A5}'
    } else if ch == 'G' {
        '\u{1D5A6}'
    } else if ch == 'H' {
        '\u{1D5A7}'
    } else if ch == 'I' {
        '\u{1D5A8}'
    } else if ch == 'J' {
        '\u{1D5A9}'
    } else if ch == 'K' {
        '\u{1D5AA}'
    } else if ch == 'L' {
        '\u{1D5AB}'
    } else if ch == 'M' {
        '\u{1D5AC}'
    } else if ch == 'N' {
        '\u{1D5AD}'
    } else if ch == 'O' {
        '\u{1D5AE}'
    } else if ch == 'P' {
        '\u{1D5AF}'
    } else if ch == 'Q' {
        '\u{1D5B0}'
    } else if ch == 'R' {
        '\u{1D5B1}'
    } else if ch == 'S' {
        '\u{1D5B2}'
    } else if ch == 'T' {
        '\u{1D5B3}'
    } else if ch == 'U' {
        '\u{1D5B4}'
    } else if ch == 'V' {
        '\u{1D5B5}'
    } else if ch == 'W' {
        '\u{1D5B6}'
    } else if ch == 'X' {
        '\u{1D5B7}'
    } else if ch == 'Y' {
        '\u{1D5B8}'
    } else if ch == 'Z' {
        '\u{1D5B9}'
    } else if ch == 'a' {
        '\u{1D5BA}'
    } else if ch == 'b' {
        '\u{1D5BB}'
    } else if ch == 'c' {
        '\u{1D5BC}'
    } else if ch == 'd' {
        '\u{1D5BD}'
    } else if ch == 'e' {
        '\u{1D5BE}'
    } else if ch == 'f' {
        '\u{1D5BF}'
    } else if ch == 'g' {
        '\u{1D5C0}'
    } else if ch == 'h' {
        '\u{1D5C1}'
    } else if ch == 'i' {
        '\u{1D5C2}'
    } else if ch == 'j' {
        '\u{1D5C3}'
    } else if ch == 'k' {
        '\u{1D5C4}'
    } else if ch == 'l' {
        '\u{1D5C5}'
    } else if ch == 'm' {
        '\u{1D5C6}'
    } else if ch == 'n' {
        '\u{1D5C7}'
    } else if ch == 'o' {
        '\u{1D5C8}'
    } else if ch == 'p' {
        '\u{1D5C9}'
    } else if ch == 'q' {
        '\u{1D5CA}'
    } else if ch == 'r' {
        '\u{1D5CB}'
    } else if ch == 's' {
        '\u{1D5CC}'
    } else if ch == 't' {
        '\u{1D5CD}'
    } else if ch == 'u' {
        '\u{1D5CE}'
    } else if ch == 'v' {
        '\u{1D5CF}'
    } else if ch == 'w' {
        '\u{1D5D0}'
    } else if ch == 'x' {
        '\u{1D5D1}'
    } else if ch == 'y' {
        '\u{1D5D2}'
    } else if ch == 'z' {
        '\u{1D5D3}'
    } else {
        ch
    }
}

// ---------------------------------------------------------------------------
// Inverted punctuation
// ---------------------------------------------------------------------------

/// ``!` `` and ``?` `` (not followed by another backtick) become `¡` and `¿`;
/// every other byte stays.
pub open spec fn inverted_from(t: Seq<u8>, i: int) -> Seq<u8>
    decreases t.len() - i,
{
    if i < 0 || i >= t.len() {
        Seq::empty()
    } else if (t[i] == 0x21 || t[i] == 0x3f) && i + 1 < t.len() && t[i + 1] == 0x60 && !(i + 2 < t.len()
        && t[i + 2] == 0x60) {
        (if t[i] == 0x21 {
            seq![0xc2u8, 0xa1u8]
        } else {
            seq![0xc2u8, 0xbfu8]
        }) + inverted_from(t, i + 2)
    } else {
        seq![t[i]] + inverted_from(t, i + 1)
    }
}

/// Convert TeX inverted punctuation.
fn replace_inverted_punct(t: &[u8]) -> (res: Vec<u8>)
    ensures
        res@ == inverted_from(t@, 0),
{
    let mut out: Vec<u8> = Vec::new();
    let mut i: usize = 0;
    while i < t.len()
        invariant
            i <= t.len(),
            out@ + inverted_from(t@, i as int) == inverted_from(t@, 0),
        decreases t.len() - i,
    {
        let ghost o = out@;
        if (t[i] == 0x21 || t[i] == 0x3f) && i + 1 < t.len() && t[i + 1] == 0x60 && !(i + 2 < t.len()
            && t[i + 2] == 0x60) {
            out.push(0xc2);
            if t[i] == 0x21 {
                out.push(0xa1);
            } else {
                out.push(0xbf);
            }
            assert(o + inverted_from(t@, i as int) =~= out@ + inverted_from(t@, i + 2));
            i = i + 2;
        } else {
            out.push(t[i]);
            assert(o + inverted_from(t@, i as int) =~= out@ + inverted_from(t@, i + 1));
            i = i + 1;
        }
    }
    out
}

// ---------------------------------------------------------------------------
// Ligatures, escapes and spacing
// ---------------------------------------------------------------------------

/// Literal replacements, applied one after the other.
pub open spec fn literal_pairs() -> Seq<(&'static str, &'static str)> {
    seq![
        ("``", "\u{201c}"),
        ("''", "\u{201d}"),
        ("---", "\u{2014}"),
        ("--", "\u{2013}"),
        ("~", " "),
        ("\\&", "&"),
        ("\\#", "#"),
        ("\\$", "$"),
        ("\\%", "%"),
        ("\\_", "_"),
        ("\\,", "\u{2009}"),
        ("\\;", "\u{205F}"),
        ("\\:", "\u{2009}"),
        ("\\!", ""),
        ("\\|", "\u{2016}"),
    ]
}

fn literal_pair_list() -> (res: Vec<(&'static str, &'static str)>)
    ensures
        res@ == literal_pairs(),
{
    vec![
        ("``", "\u{201c}"),
        ("''", "\u{201d}"),
        ("---", "\u{2014}"),
        ("--", "\u{2013}"),
        ("~", " "),
        ("\\&", "&"),
        ("\\#", "#"),
        ("\\$", "$"),
        ("\\%", "%"),
        ("\\_", "_"),
        ("\\,", "\u{2009}"),
        ("\\;", "\u{205F}"),
        ("\\:", "\u{2009}"),
        ("\\!", ""),
        ("\\|", "\u{2016}"),
    ]
}

/// `t` after the first `n` literal replacements.
pub open spec fn literals_replaced(t: Seq<u8>, n: int) -> Seq<u8>
    decreases n,
{
    if n <= 0 {
        t
    } else {
        let p = literal_pairs()[n - 1];
        replace_all_spec(literals_replaced(t, n - 1), p.0.spec_bytes(), p.1.spec_bytes())
    }
}

fn replace_literals(t: Vec<u8>) -> (res: Vec<u8>)
    ensures
        res@ == literals_replaced(t@, literal_pairs().len() as int),
{
    let pairs = literal_pair_list();
    let ghost t0 = t@;
    let mut cur = t;
    let mut i: usize = 0;
    while i < pairs.len()
        invariant
            i <= pairs.len(),
            pairs@ == literal_pairs(),
            cur@ == literals_replaced(t0, i as int),
        decreases pairs.len() - i,
    {
        let (from, to) = pairs[i];
        cur = replace_bytes(cur.as_slice(), from.as_bytes(), to.as_bytes());
        i = i + 1;
    }
    cur
}

// ---------------------------------------------------------------------------
// Math alphabets
// ---------------------------------------------------------------------------

/// The four Unicode math alphabets.
#[derive(Clone, Copy)]
pub enum Alphabet {
    DoubleStruck,
    Script,
    Fraktur,
    SansSerif,
}

pub const DOUBLE_STRUCK_PATTERN: &'static str = "\\\\(?:mathbb|Bbb)\\{([A-Za-z0-9])\\}";

pub const SCRIPT_PATTERN: &'static str = "\\\\math(?:cal|scr)\\{([A-Za-z])\\}";

pub const FRAKTUR_PATTERN: &'static str = "\\\\mathfrak\\{([A-Za-z])\\}";

pub const SANS_SERIF_PATTERN: &'static str = "\\\\mathsf\\{([A-Za-z])\\}";

pub open spec fn alphabet_pattern(f: Alphabet) -> Seq<u8> {
    match f {
        Alphabet::DoubleStruck => DOUBLE_STRUCK_PATTERN.spec_bytes(),
        Alphabet::Script => SCRIPT_PATTERN.spec_bytes(),
        Alphabet::Fraktur => FRAKTUR_PATTERN.spec_bytes(),
        Alphabet::SansSerif => SANS_SERIF_PATTERN.spec_bytes(),
    }
}

pub open spec fn alphabet_char(f: Alphabet, ch: char) -> char {
    match f {
        Alphabet::DoubleStruck => double_struck(ch),
        Alphabet::Script => script_form(ch),
        Alphabet::Fraktur => fraktur_form(ch),
        Alphabet::SansSerif => sans_serif_form(ch),
    }
}

fn alphabet_char_exec(f: Alphabet, ch: char) -> (res: char)
    ensures
        res == alphabet_char(f, ch),
{
    match f {
        Alphabet::DoubleStruck => mathbb_char(ch),
        Alphabet::Script => mathscript_char(ch),
        Alphabet::Fraktur => mathfrak_char(ch),
        Alphabet::SansSerif => mathsf_char(ch),
    }
}

/// What a math-alphabet match becomes: the UTF-8 of the converted
/// captured character (a match whose group is not one ASCII character,
/// which the pattern rules out, stays as it is).
pub open spec fn alphabet_text(t: Seq<u8>, c: Seq<Option<(usize, usize)>>, f: Alphabet) -> Seq<u8> {
    let whole = t.subrange(group_start(c, 0) as int, group_end(c, 0) as int);
    if c.len() > 1 {
        match c[1] {
            Some((a, b)) => if a < b <= t.len() && t[a as int] < 0x80 {
                vstd::utf8::encode_scalar(alphabet_char(f, t[a as int] as char) as u32)
            } else {
                whole
            },
            None => whole,
        }
    } else {
        whole
    }
}

/// The text from `le` on with the matches from `k` on converted.
pub open spec fn alphabet_from(t: Seq<u8>, caps: Seq<Seq<Option<(usize, usize)>>>, f: Alphabet, k: int, le: int) -> Seq<u8>
    decreases caps.len() - k,
{
    if k < 0 || k >= caps.len() {
        t.subrange(le, t.len() as int)
    } else {
        t.subrange(le, group_start(caps[k], 0) as int) + alphabet_text(t, caps[k], f) + alphabet_from(
            t,
            caps,
            f,
            k + 1,
            group_end(caps[k], 0) as int,
        )
    }
}

pub open spec fn alphabet_converted(t: Seq<u8>, f: Alphabet) -> Seq<u8> {
    alphabet_from(t, re_captures(alphabet_pattern(f), t), f, 0, 0)
}

/// Append the UTF-8 encoding of a character.
pub fn push_char_utf8(out: &mut Vec<u8>, c: char)
    ensures
        final(out)@ == old(out)@ + vstd::utf8::encode_scalar(c as u32),
{
    let v = c as u32;
    proof {
        vstd::utf8::char_is_scalar(c);
    }
    let ghost o = out@;
    if v <= 0x7f {
        out.push((v & 0x7F) as u8);
    } else if v <= 0x7ff {
        out.push(0xC0 | ((v >> 6) & 0x1F) as u8);
        out.push(0x80 | (v & 0x3F) as u8);
    } else if v <= 0xffff {
        out.push(0xE0 | ((v >> 12) & 0x0F) as u8);
        out.push(0x80 | ((v >> 6) & 0x3F) as u8);
        out.push(0x80 | (v & 0x3F) as u8);
    } else {
        out.push(0xF0 | ((v >> 18) & 0x7) as u8);
        out.push(0x80 | ((v >> 12) & 0x3F) as u8);
        out.push(0x80 | ((v >> 6) & 0x3F) as u8);
        out.push(0x80 | (v & 0x3F) as u8);
    }
    assert(out@ =~= o + vstd::utf8::encode_scalar(v));
}

fn alphabet_pattern_str(f: Alphabet) -> (res: &'static str)
    ensures
        res.spec_bytes() == alphabet_pattern(f),
{
    match f {
        Alphabet::DoubleStruck => DOUBLE_STRUCK_PATTERN,
        Alphabet::Script => SCRIPT_PATTERN,
        Alphabet::Fraktur => FRAKTUR_PATTERN,
        Alphabet::SansSerif => SANS_SERIF_PATTERN,
    }
}

/// Convert the math-alphabet commands of one alphabet.
#[verifier::spinoff_prover]
#[verifier::rlimit(30)]
fn convert_alphabet(t: &[u8], f: Alphabet) -> (res: Vec<u8>)
    ensures
        res@ == alphabet_converted(t@, f),
{
    let caps = re_captures_bytes(alphabet_pattern_str(f), t);
    let ghost cv = captures_view(caps@);
    let mut out: Vec<u8> = Vec::new();
    let mut le: usize = 0;
    let mut k: usize = 0;
    while k < caps.len()
        invariant
            k <= caps.len(),
            le <= t.len(),
            cv == captures_view(caps@),
            cv == re_captures(alphabet_pattern(f), t@),
            well_formed_captures(cv, t@.len()),
            k > 0 ==> le == group_end(cv[k - 1], 0),
            k == 0 ==> le == 0,
            out@ + alphabet_from(t@, cv, f, k as int, le as int) == alphabet_from(t@, cv, f, 0, 0),
        decreases caps.len() - k,
    {
        let ghost o = out@;
        let c = &caps[k];
        assert(cv[k as int] == c@);
        let (s, e) = match c[0] {
            Some((x, y)) => (x, y),
            None => (0, 0),
        };
        assert(s == group_start(cv[k as int], 0) && e == group_end(cv[k as int], 0));
        if k > 0 {
            assert(group_end(cv[k - 1], 0) <= group_start(cv[k as int], 0));
        }
        push_range(&mut out, t, le, s);
        let mut done = false;
        if c.len() > 1 {
            match c[1] {
                Some((a, b)) => {
                    if a < b && b <= t.len() && t[a] < 0x80 {
                        let ch = alphabet_char_exec(f, t[a] as char);
                        push_char_utf8(&mut out, ch);
                        done = true;
                    }
                },
                None => {},
            }
        }
        if !done {
            push_range(&mut out, t, s, e);
        }
        assert(out@ =~= o + t@.subrange(le as int, s as int) + alphabet_text(t@, c@, f));
        assert(o + (t@.subrange(le as int, s as int) + alphabet_text(t@, c@, f) + alphabet_from(t@, cv, f, k + 1, e as int))
            =~= out@ + alphabet_from(t@, cv, f, k + 1, e as int));
        le = e;
        k = k + 1;
    }
    push_range(&mut out, t, le, t.len());
    out
}

// ---------------------------------------------------------------------------
// The whole conversion
// ---------------------------------------------------------------------------

/// Inverted punctuation, ligatures, escapes and spacing commands.
pub open spec fn punctuation_converted(t: Seq<u8>) -> Seq<u8> {
    literals_replaced(inverted_from(t, 0), literal_pairs().len() as int)
}

/// The symbol tables: text commands, math symbols, Greek letters.
pub open spec fn commands_converted(t: Seq<u8>) -> Seq<u8> {
    let a = replace_commands(pair_patterns(text_command_pairs()), pair_replacements(text_command_pairs()), t);
    let b = replace_commands(pair_patterns(math_symbol_pairs()), pair_replacements(math_symbol_pairs()), a);
    replace_commands(pair_patterns(greek_letter_pairs()), pair_replacements(greek_letter_pairs()), b)
}

/// The math alphabets.
pub open spec fn alphabets_converted(t: Seq<u8>) -> Seq<u8> {
    let a = alphabet_converted(t, Alphabet::DoubleStruck);
    let b = alphabet_converted(a, Alphabet::Script);
    let c = alphabet_converted(b, Alphabet::Fraktur);
    alphabet_converted(c, Alphabet::SansSerif)
}

/// The whole symbol conversion.
pub open spec fn symbols_converted(t: Seq<u8>) -> Seq<u8> {
    alphabets_converted(commands_converted(punctuation_converted(t)))
}

fn convert_commands(t: &[u8]) -> (res: Vec<u8>)
    ensures
        res@ == commands_converted(t@),
{
    let tc = text_command_list();
    let r1 = replacer_for(tc.as_slice());
    let a = r1.replace_all_bytes(t);
    let ms = math_symbol_list();
    let r2 = replacer_for(ms.as_slice());
    let b = r2.replace_all_bytes(a.as_slice());
    let gl = greek_letter_list();
    let r3 = replacer_for(gl.as_slice());
    r3.replace_all_bytes(b.as_slice())
}

fn convert_alphabets(t: &[u8]) -> (res: Vec<u8>)
    ensures
        res@ == alphabets_converted(t@),
{
    let a = convert_alphabet(t, Alphabet::DoubleStruck);
    let b = convert_alphabet(a.as_slice(), Alphabet::Script);
    let c = convert_alphabet(b.as_slice(), Alphabet::Fraktur);
    convert_alphabet(c.as_slice(), Alphabet::SansSerif)
}

/// The symbol conversion on bytes.
pub fn convert_symbols_bytes(t: &[u8]) -> (res: Vec<u8>)
    ensures
        res@ == symbols_converted(t@),
{
    let a = replace_inverted_punct(t);
    let b = replace_literals(a);
    let c = convert_commands(b.as_slice());
    convert_alphabets(c.as_slice())
}

/// Convert LaTeX symbol commands and ligatures to Unicode.
pub fn convert_symbols(text: &str) -> (res: String)
    ensures
        res@ == utf8_lossy(symbols_converted(text.spec_bytes())),
{
    let out = convert_symbols_bytes(text.as_bytes());
    string_from_bytes(out.as_slice())
}


// ---------------------------------------------------------------------------
// Math alphabets against the Unicode mathematical alphanumeric symbols
// ---------------------------------------------------------------------------

/// A code point that Unicode leaves unassigned in the mathematical
/// alphanumeric block, because the letter already has a letterlike form.
pub open spec fn math_alnum_hole(v: u32) -> bool {
    v == 0x1D455 || v == 0x1D49D || v == 0x1D4A0 || v == 0x1D4A1 || v == 0x1D4A3 || v == 0x1D4A4
        || v == 0x1D4A7 || v == 0x1D4A8 || v == 0x1D4AD || v == 0x1D4BA || v == 0x1D4BC || v == 0x1D4C4
        || v == 0x1D506 || v == 0x1D50B || v == 0x1D50C || v == 0x1D515 || v == 0x1D51D || v == 0x1D53A
        || v == 0x1D53F || v == 0x1D545 || v == 0x1D547 || v == 0x1D548 || v == 0x1D549 || v == 0x1D551
        || v == 0x1D6A6 || v == 0x1D6A7 || v == 0x1D7CC || v == 0x1D7CD
}

pub open spec fn is_upper_ascii(ch: char) -> bool {
    'A' <= ch <= 'Z'
}

pub open spec fn is_lower_ascii(ch: char) -> bool {
    'a' <= ch <= 'z'
}

pub open spec fn is_digit_ascii(ch: char) -> bool {
    '0' <= ch <= '9'
}

/// `\mathbb` gives the Unicode DOUBLE-STRUCK form of each letter and digit:
/// the letterlike-block character for C, H, N, P, Q, R and Z, the
/// mathematical double-struck block (in alphabet order) for every other
/// letter and for the digits, never an unassigned code point; any other
/// character stays.
#[verifier::rlimit(50)]
pub proof fn law_double_struck(ch: char)
    ensures
        ch == 'C' ==> alphabet_char(Alphabet::DoubleStruck, ch) == '\u{2102}',
        ch == 'H' ==> alphabet_char(Alphabet::DoubleStruck, ch) == '\u{210D}',
        ch == 'N' ==> alphabet_char(Alphabet::DoubleStruck, ch) == '\u{2115}',
        ch == 'P' ==> alphabet_char(Alphabet::DoubleStruck, ch) == '\u{2119}',
        ch == 'Q' ==> alphabet_char(Alphabet::DoubleStruck, ch) == '\u{211A}',
        ch == 'R' ==> alphabet_char(Alphabet::DoubleStruck, ch) == '\u{211D}',
        ch == 'Z' ==> alphabet_char(Alphabet::DoubleStruck, ch) == '\u{2124}',
        is_upper_ascii(ch) && ch != 'C' && ch != 'H' && ch != 'N' && ch != 'P' && ch != 'Q' && ch != 'R'
            && ch != 'Z' ==> alphabet_char(Alphabet::DoubleStruck, ch) as u32 == 0x1D538 + (ch as u32 - 0x41),
        is_lower_ascii(ch) ==> alphabet_char(Alphabet::DoubleStruck, ch) as u32 == 0x1D552 + (ch as u32 - 0x61),
        is_digit_ascii(ch) ==> alphabet_char(Alphabet::DoubleStruck, ch) as u32 == 0x1D7D8 + (ch as u32 - 0x30),
        is_upper_ascii(ch) || is_lower_ascii(ch) || is_digit_ascii(ch) ==> !math_alnum_hole(alphabet_char(Alphabet::DoubleStruck, ch) as u32),
        !is_upper_ascii(ch) && !is_lower_ascii(ch) && !is_digit_ascii(ch) ==> alphabet_char(Alphabet::DoubleStruck, ch) == ch,
{
}

/// `\mathcal` and `\mathscr` give the Unicode SCRIPT form of each letter:
/// the letterlike-block character for B, E, F, H, I, L, M, R, e, g and o,
/// the mathematical script block (in alphabet order) for every other
/// letter, never an unassigned code point; any other character stays.
#[verifier::rlimit(50)]
pub proof fn law_script_form(ch: char)
    ensures
        ch == 'B' ==> alphabet_char(Alphabet::Script, ch) == '\u{212C}',
        ch == 'E' ==> alphabet_char(Alphabet::Script, ch) == '\u{2130}',
        ch == 'F' ==> alphabet_char(Alphabet::Script, ch) == '\u{2131}',
        ch == 'H' ==> alphabet_char(Alphabet::Script, ch) == '\u{210B}',
        ch == 'I' ==> alphabet_char(Alphabet::Script, ch) == '\u{2110}',
        ch == 'L' ==> alphabet_char(Alphabet::Script, ch) == '\u{2112}',
        ch == 'M' ==> alphabet_char(Alphabet::Script, ch) == '\u{2133}',
        ch == 'R' ==> alphabet_char(Alphabet::Script, ch) == '\u{211B}',
        ch == 'e' ==> alphabet_char(Alphabet::Script, ch) == '\u{212F}',
        ch == 'g' ==> alphabet_char(Alphabet::Script, ch) == '\u{210A}',
        ch == 'o' ==> alphabet_char(Alphabet::Script, ch) == '\u{2134}',
        is_upper_ascii(ch) && ch != 'B' && ch != 'E' && ch != 'F' && ch != 'H' && ch != 'I' && ch != 'L'
            && ch != 'M' && ch != 'R' ==> alphabet_char(Alphabet::Script, ch) as u32 == 0x1D49C + (ch as u32 - 0x41),
        is_lower_ascii(ch) && ch != 'e' && ch != 'g' && ch != 'o' ==> alphabet_char(Alphabet::Script, ch) as u32 == 0x1D4B6 + (
        ch as u32 - 0x61),
        is_upper_ascii(ch) || is_lower_ascii(ch) ==> !math_alnum_hole(alphabet_char(Alphabet::Script, ch) as u32),
        !is_upper_ascii(ch) && !is_lower_ascii(ch) ==> alphabet_char(Alphabet::Script, ch) == ch,
{
}

/// `\mathfrak` gives the Unicode FRAKTUR form of each letter: the
/// letterlike-block character for C, H, I, R and Z, the mathematical
/// fraktur block (in alphabet order) for every other letter, never an
/// unassigned code point; any other character stays.
#[verifier::rlimit(50)]
pub proof fn law_fraktur_form(ch: char)
    ensures
        ch == 'C' ==> alphabet_char(Alphabet::Fraktur, ch) == '\u{212D}',
        ch == 'H' ==> alphabet_char(Alphabet::Fraktur, ch) == '\u{210C}',
        ch == 'I' ==> alphabet_char(Alphabet::Fraktur, ch) == '\u{2111}',
        ch == 'R' ==> alphabet_char(Alphabet::Fraktur, ch) == '\u{211C}',
        ch == 'Z' ==> alphabet_char(Alphabet::Fraktur, ch) == '\u{2128}',
        is_upper_ascii(ch) && ch != 'C' && ch != 'H' && ch != 'I' && ch != 'R' && ch != 'Z'
            ==> alphabet_char(Alphabet::Fraktur, ch) as u32 == 0x1D504 + (ch as u32 - 0x41),
        is_lower_ascii(ch) ==> alphabet_char(Alphabet::Fraktur, ch) as u32 == 0x1D51E + (ch as u32 - 0x61),
        is_upper_ascii(ch) || is_lower_ascii(ch) ==> !math_alnum_hole(alphabet_char(Alphabet::Fraktur, ch) as u32),
        !is_upper_ascii(ch) && !is_lower_ascii(ch) ==> alphabet_char(Alphabet::Fraktur, ch) == ch,
{
}

/// `\mathsf` gives the Unicode SANS-SERIF form of each letter, in alphabet
/// order; any other character stays.
#[verifier::rlimit(50)]
pub proof fn law_sans_serif_form(ch: char)
    ensures
        is_upper_ascii(ch) ==> alphabet_char(Alphabet::SansSerif, ch) as u32 == 0x1D5A0 + (ch as u32 - 0x41),
        is_lower_ascii(ch) ==> alphabet_char(Alphabet::SansSerif, ch) as u32 == 0x1D5BA + (ch as u32 - 0x61),
        !is_upper_ascii(ch) && !is_lower_ascii(ch) ==> alphabet_char(Alphabet::SansSerif, ch) == ch,
{
}

} // verus!
