//! The system prompt of a paragraph translation and the closed vocabulary
//! of part-of-speech tags it offers the model.

use vstd::prelude::*;

verus! {

pub const PARAGRAPH_PROMPT_0: &'static str = "You are given a paragraph in a foreign language. The goal is to construct a translation which can \
    be used by somebody who speaks the ";

pub const PARAGRAPH_PROMPT_1: &'static str = " language to learn the original language.\n        For each sentence provide a good, but close to \
    the original, translation \
    from ";

pub const PARAGRAPH_PROMPT_2: &'static str = " into the ";

pub const PARAGRAPH_PROMPT_3: &'static str = " language.\n        For each word in the sentence, provide a full translation \
    from ";

pub const PARAGRAPH_PROMPT_4: &'static str = " into ";

pub const PARAGRAPH_PROMPT_5: &'static str = " language. Give several translation variants if necessary.\n        For compound words and contractions \
    treat them as single words with appropriate grammatical information. Describe the full form in the \
    'note' field if necessary.\n        Add a note on the use of the word if it's not clear how translation \
    maps to the original.\n        Preserve all punctuation, including all quotation marks and various \
    kinds of parenthesis or braces.\n        Put HTML-encoded values for punctuation signs in the 'original' \
    field, e.g. comma turns into &comma;.\n        If you see an HTML line break (<br>) treat it as \
    punctuation and preserve it in the output correspondingly.\n        Provide grammatical information \
    for each word.\n            - Grammatical information should ONLY be about the original word and \
    how it's used in the original language.\n            - Do NOT use concepts from the ";

pub const PARAGRAPH_PROMPT_6: &'static str = " language when decribing the grammar.\n            - Use ONLY concepts which make sense and exist \
    in the ";

pub const PARAGRAPH_PROMPT_7: &'static str = " language grammatical system, but explain them in the ";

pub const PARAGRAPH_PROMPT_8: &'static str = " language.\n            - All the information given must be in ";

pub const PARAGRAPH_PROMPT_9: &'static str = " language except for the 'originalInitialForm' and 'partOfSpeech' fields. 'originalInitialForm' \
    is in ";

pub const PARAGRAPH_PROMPT_10: &'static str = "; 'partOfSpeech' is one of the canonical English tags listed below.\n            - Example: For \
    Japanese, use concepts like '\u{3066}-form', 'potential form', '\u{9023}\u{4f53}\u{5f62}'\n            - \
    Example: For German, use concepts like 'dative case', 'strong declension'\n            - Example: \
    For Russian, use concepts like 'perfective aspect', 'genitive case'\n            - Explain these \
    concepts in the TARGET language for the learner\n            - In the 'other' field, include any \
    language-specific grammatical features not covered by standard fields\n        Initial forms (originalInitialForm \
    and targetInitialForm) must be the CITATION FORM appropriate for the chosen partOfSpeech tag \u{2014} \
    not the most reductive verb-base in every case. The form, the tag, and the meaning must agree.\n            - \
    For `verb` tags: bare infinitive in both languages. 'They mourn' \u{2192} originalInitialForm 'mourn', \
    targetInitialForm '\u{441}\u{43a}\u{43e}\u{440}\u{431}\u{435}\u{442}\u{44c}'.\n            - For \
    `verb_auxiliary` / `verb_modal` / `verb_copula` tags: citation form of the AUXILIARY/MODAL/COPULA \
    itself, NEVER of any elided or substituted lexical verb. 'Oh, he does' (verb_auxiliary, pro-verb \
    for 'hates') \u{2192} originalInitialForm 'do', targetInitialForm is an auxiliary/pro-verb rendering \
    in the target language OR empty if no clean equivalent exists \u{2014} explicitly NOT '\u{43d}\u{435}\u{43d}\u{430}\u{432}\u{438}\u{434}\u{435}\u{442}\u{44c}' \
    / the antecedent's meaning. 'Then who does?' (pro-verb for 'has') \u{2192} 'do', NOT 'have'. 'I \
    did go' \u{2192} 'do'. 'Yes, I have' (pro-verb) \u{2192} 'have'. Use the 'note' field to explain \
    when targetInitialForm is empty because the auxiliary lacks a standalone target-language equivalent.\n            - \
    For `participle_present` / `participle_past` / `gerund` tags: the participial / gerund form, NOT \
    the verb infinitive. 'the mourning lord' \u{2192} originalInitialForm 'mourning', targetInitialForm \
    '\u{441}\u{43a}\u{43e}\u{440}\u{431}\u{44f}\u{449}\u{438}\u{439}'. 'the broken vase' \u{2192} 'broken' \
    / '\u{440}\u{430}\u{437}\u{431}\u{438}\u{442}\u{44b}\u{439}'. 'Swimming is fun' (gerund) \u{2192} \
    'swimming' / '\u{43f}\u{43b}\u{430}\u{432}\u{430}\u{43d}\u{438}\u{435}'.\n            - For `common_noun` \
    / `proper_noun` tags: nominative singular (or the language's neutral citation form).\n            - \
    For adjective and adverb tags: positive degree, neutral form.\n            - For pronoun tags: nominative \
    form (e.g., 'I' not 'me', '\u{44f}' not '\u{43c}\u{435}\u{43d}\u{44f}'); for possessives the citation \
    form ('mine', '\u{43c}\u{43e}\u{439}').\n            - For other tags: the form a ";

pub const PARAGRAPH_PROMPT_11: &'static str = "-language dictionary entry for this category would carry.\n          The same root word can therefore \
    land in multiple cards across different surface forms: 'mourn' (verb) and 'mourning' (participle_present) \
    are distinct entries with distinct translations, by design.\n        Translation forms \u{2014} \
    these two fields have distinct roles, do not conflate them:\n            - 'targetInitialForm' is \
    the CITATION-form translation in ";

pub const PARAGRAPH_PROMPT_12: &'static str = " for the same partOfSpeech tag the source carries (see the initial-forms rule above). Always populate \
    this with a clean entry in that tag's citation form, even when the rendered sentence uses a different \
    syntactic structure or restructures the meaning across multiple words. Illustrative examples (English \
    \u{2192} Russian): 'had witnessed' (tag: verb) \u{2192} '\u{431}\u{44b}\u{442}\u{44c} \u{441}\u{432}\u{438}\u{434}\u{435}\u{442}\u{435}\u{43b}\u{435}\u{43c}' \
    (a verb infinitive), NOT '\u{441}\u{432}\u{438}\u{434}\u{435}\u{442}\u{435}\u{43b}\u{435}\u{43c}'. \
    'the mourning lord' (tag: participle_present) \u{2192} '\u{441}\u{43a}\u{43e}\u{440}\u{431}\u{44f}\u{449}\u{438}\u{439}' \
    (a Russian participle), NOT '\u{441}\u{43a}\u{43e}\u{440}\u{431}\u{435}\u{442}\u{44c}'. 'Swimming \
    is fun' (tag: gerund) \u{2192} '\u{43f}\u{43b}\u{430}\u{432}\u{430}\u{43d}\u{438}\u{435}' (a verbal \
    noun), NOT '\u{43f}\u{43b}\u{430}\u{432}\u{430}\u{442}\u{44c}'. Apply the same principle for any ";

pub const PARAGRAPH_PROMPT_13: &'static str = "/";

pub const PARAGRAPH_PROMPT_14: &'static str = " pair. If the source word truly has no translatable meaning, leave 'targetInitialForm' empty \u{2014} \
    but always try first. EXCEPTION for `verb_auxiliary` / `verb_modal` / `verb_copula` when the form \
    is a pro-verb, do-support, copular ellipsis, or modal-in-ellipsis: do NOT backfill the antecedent's \
    meaning. Keep targetInitialForm anchored to the auxiliary/modal/copula itself; leave it empty and \
    use 'note' if no clean target-language equivalent exists for the auxiliary in isolation. 'Oh, he \
    does' (pro-verb for 'hates') \u{2192} targetInitialForm is the auxiliary 'do' equivalent or empty, \
    NEVER '\u{43d}\u{435}\u{43d}\u{430}\u{432}\u{438}\u{434}\u{435}\u{442}\u{44c}'.\n            - 'contextualTranslations' \
    are translation variants that fit the CURRENT sentence in-context. They are used to annotate the \
    original text inside the reader UI, so fragments, oblique forms, or any rendering that matches how \
    this specific occurrence appears in the translated sentence is welcome. Distinct purpose from targetInitialForm \
    \u{2014} these are for in-text help, that one is for flashcards.\n            - If the source word's \
    meaning cannot be conveyed by a single ";

pub const PARAGRAPH_PROMPT_15: &'static str = " word \u{2014} for example because the sentence restructures the idea \u{2014} still produce a dictionary-form \
    translation of the lemma in 'targetInitialForm' that best captures the source meaning, and use the \
    'note' field to explain the mismatch.\n        Part-of-speech vocabulary. The 'partOfSpeech' field \
    is restricted by the JSON schema to one of the following English tags; pick the one whose scope \
    best fits the word. Do NOT translate these tags or invent new ones. Inflection information (tense, \
    plurality, person, case) belongs in the dedicated grammar fields, NOT in partOfSpeech.\nCRITICAL \
    RULE \u{2014} tag by FUNCTION, not by MORPHOLOGY. A word's tag follows its grammatical role in this \
    sentence, not its surface form:\n* 'had witnessed', 'is broken', 'was eaten', '\u{431}\u{44b}\u{43b} \
    \u{441}\u{434}\u{435}\u{43b}\u{430}\u{43d}', 'has been seen' \u{2014} the participle is the predicate \
    of a perfect-tense or passive construction, so it is tagged 'verb'. The auxiliary 'had'/'is'/'was'/'\u{431}\u{44b}\u{43b}'/'has \
    been' is tagged 'verb_auxiliary'.\n* 'the broken vase', 'a running stream', '\u{437}\u{430}\u{441}\u{432}\u{438}\u{434}\u{435}\u{442}\u{435}\u{43b}\u{44c}\u{441}\u{442}\u{432}\u{43e}\u{432}\u{430}\u{43d}\u{43d}\u{44b}\u{439} \
    \u{444}\u{430}\u{43a}\u{442}' \u{2014} the participle modifies a noun standalone, so it is tagged \
    'participle_past' or 'participle_present' as appropriate.\n* 'Swimming is fun', 'I enjoy reading', \
    '\u{447}\u{442}\u{435}\u{43d}\u{438}\u{435} \u{432}\u{430}\u{436}\u{43d}\u{43e}' \u{2014} the -ing/verbal-noun \
    form is the subject or object of the sentence, so it is tagged 'gerund'.\n* 'She is swimming' \u{2014} \
    'is' is 'verb_auxiliary', 'swimming' is 'verb' (the lexical predicate, NOT a participle nor a gerund \
    here).\n* Pro-verb / do-support / VP-ellipsis: 'Oh, he does' (answering 'hates') \u{2014} 'does' \
    is 'verb_auxiliary' with originalInitialForm 'do' and a targetInitialForm reflecting the AUXILIARY \
    'do' (or empty + a note), NEVER '\u{43d}\u{435}\u{43d}\u{430}\u{432}\u{438}\u{434}\u{435}\u{442}\u{44c}'/'to \
    hate'/the antecedent's meaning. 'Then who does?' (answering 'has it') \u{2014} same treatment; lemma \
    'do', NOT 'have'/'own'/'possess'. 'Do you know?', 'I don't think so', 'I did go' \u{2014} 'do'/'don't'/'did' \
    are all 'verb_auxiliary'. Lexical 'do' (do your homework, I do the dishes) remains 'verb'. The same \
    principle applies in other source languages: when a form that CAN be a content verb appears in a \
    position where its content has been elided, or it is doing question/negation/emphasis duty (Russian \
    copular \u{435}\u{441}\u{442}\u{44c}, Spanish hacer as pro-verb, Japanese \u{3059}\u{308b}, Chinese \
    \u{662f} in short answers, modal verbs answering yes/no alone), tag by the auxiliary/modal/copula \
    function and lemma the auxiliary form \u{2014} not the elided lexical verb.\n            - common_noun: \
    regular common nouns (book, idea, \u{441}\u{442}\u{440}\u{430}\u{43d}\u{430}, libro, kitap, \u{10ec}\u{10d8}\u{10d2}\u{10dc}\u{10d8}, \
    \u{4e66})\n            - proper_noun: names of people, places, brands (Harry, Munich, \u{41c}\u{43e}\u{441}\u{43a}\u{432}\u{430}, \
    Madrid, \u{130}stanbul, \u{10d7}\u{10d1}\u{10d8}\u{10da}\u{10d8}\u{10e1}\u{10d8}, \u{5317}\u{4eac})\n            - \
    pronoun_personal: personal pronouns including Spanish clitics (I, you, he, she, me/te/se/lo, \u{44f}, \
    \u{442}\u{44b}, \u{43e}\u{43d}, \u{6211}, \u{4f60})\n            - pronoun_possessive: possessive \
    pronouns standing alone as the noun phrase (mine, yours, \u{43c}\u{43e}\u{439} as predicate, m\u{ed}o)\n            - \
    pronoun_demonstrative: demonstrative pronouns standing alone (this, that, \u{44d}\u{442}\u{43e}\u{442} \
    as predicate, esto, bu, \u{10d4}\u{10e1}, \u{8fd9}\u{4e2a} in isolation)\n            - pronoun_reflexive: \
    reflexive pronouns (myself, \u{441}\u{435}\u{431}\u{44f}, kendi, \u{10d7}\u{10d0}\u{10d5}\u{10d8}, \
    \u{81ea}\u{5df1})\n            - pronoun_relative: relative pronouns in relative clauses (which, \
    that, who as relativizer; \u{43a}\u{43e}\u{442}\u{43e}\u{440}\u{44b}\u{439}, que)\n            - \
    pronoun_interrogative: interrogative pronouns in questions (who, what; \u{43a}\u{442}\u{43e}, \u{447}\u{442}\u{43e}; \
    qu\u{e9}; kim, ne; \u{10d5}\u{10d8}\u{10dc}, \u{10e0}\u{10d0}; \u{8c01}, \u{4ec0}\u{4e48})\n            - \
    pronoun_indefinite: indefinite pronouns (someone, anyone, none; \u{43a}\u{442}\u{43e}-\u{442}\u{43e}, \
    \u{43d}\u{438}\u{43a}\u{442}\u{43e}; alguien; biri; \u{10d5}\u{10d8}\u{10dc}\u{10db}\u{10d4}; \u{6709}\u{4eba})\n            - \
    pronoun_other: catch-all for pronoun-like words that fit none of the above (everyone/everything, \
    intensive \u{441}\u{430}\u{43c}/himself, dummy/expletive it/there, impersonal subjects)\n            - \
    verb: main lexical verb in finite or non-finite use that is NOT a participle, gerund, copula, auxiliary, \
    or modal. Imperatives, subjunctives, infinitives, converbs collapse here. Inflection goes in tense/plurality/person/case/other, \
    not in this tag\n            - verb_auxiliary: auxiliary verbs in any of the following uses: (1) \
    helping another verb (have eaten, is going, \u{431}\u{44b}\u{43b} as past-tense aux, Spanish haber, \
    Turkish ol- as auxiliary, Chinese \u{5728}/\u{7740} as aspect host when verbal); (2) English do-support \
    in questions ('Do you know?', 'Then who does?'), negation ('I don't think so', 'doesn't', 'didn't'), \
    and emphasis ('I did go'); (3) pro-verb / VP-ellipsis where an auxiliary, modal, or copula stands \
    alone for a previously mentioned (or elided) lexical VP \u{2014} English 'Oh, he does' (answering \
    'hates'), 'Yes, I have', 'I will', 'She can'; Russian copular \u{435}\u{441}\u{442}\u{44c} in possession \
    ('\u{443} \u{43c}\u{435}\u{43d}\u{44f} \u{435}\u{441}\u{442}\u{44c}'), modal \u{43c}\u{43e}\u{447}\u{44c}/\u{443}\u{43c}\u{435}\u{442}\u{44c} \
    in short yes/no answers ('\u{414}\u{430}, \u{43c}\u{43e}\u{433}\u{443}'); Spanish hacer as pro-verb \
    ('Lo hago'); Japanese \u{3059}\u{308b} as pro-verb; Chinese \u{662f} in short answers. When this \
    tag is chosen, originalInitialForm and targetInitialForm MUST be the citation form of the AUXILIARY \
    itself (English 'do' \u{2192} 'do'; an auxiliary/pro-verb rendering in the target language, or empty \
    + a 'note' explaining the mismatch), NEVER the meaning of the elided or substituted lexical verb\n            - \
    verb_modal: modal verbs (can, must, will, should; \u{43c}\u{43e}\u{447}\u{44c} as modal; deber; \
    -ebil- in Turkish potentialis; \u{80fd}, \u{4f1a}, \u{53ef}\u{4ee5})\n            - verb_copula: \
    linking copula (am tired, was hungry; ser/estar in Spanish; \u{435}\u{441}\u{442}\u{44c} as copula; \
    d\u{131}r in Turkish; \u{10d0}\u{10e0}\u{10d8}\u{10e1} in Georgian; \u{662f} in Chinese)\n            - \
    predicative: Russian-style state words used alone as predicate (\u{43c}\u{43e}\u{436}\u{43d}\u{43e}, \
    \u{43d}\u{435}\u{43b}\u{44c}\u{437}\u{44f}, \u{43f}\u{43e}\u{440}\u{430}, \u{43d}\u{430}\u{434}\u{43e}, \
    \u{436}\u{430}\u{43b}\u{44c}; Korean/Hungarian have analogs). Use only when the word does not inflect \
    like a verb and functions as the predicate by itself\n            - participle_present: present \
    participle ONLY when the form acts as a standalone modifier of a noun (the running water, \u{43a}\u{438}\u{43f}\u{44f}\u{449}\u{430}\u{44f} \
    \u{432}\u{43e}\u{434}\u{430}, \u{438}\u{434}\u{443}\u{449}\u{438}\u{439} \u{447}\u{435}\u{43b}\u{43e}\u{432}\u{435}\u{43a}). \
    NEVER for verbal predicates like 'is running', 'are eating' \u{2014} those are `verb_auxiliary` \
    + `verb`. Russian active present \u{438}\u{434}\u{443}\u{449}\u{438}\u{439} / passive present \u{447}\u{438}\u{442}\u{430}\u{435}\u{43c}\u{44b}\u{439} \
    used adjectivally; Turkish -an participle; Georgian \u{10db}-...-\u{10d4}\u{10da}-\u{10d8}; Spanish \
    gerundio when adjectival\n            - participle_past: past participle ONLY when the form acts \
    as a standalone modifier of a noun (the broken vase, \u{440}\u{430}\u{437}\u{431}\u{438}\u{442}\u{430}\u{44f} \
    \u{432}\u{430}\u{437}\u{430}, the witnessed event). NEVER for perfect-tense or passive verbal predicates \
    like 'had witnessed', 'was eaten', '\u{431}\u{44b}\u{43b} \u{441}\u{434}\u{435}\u{43b}\u{430}\u{43d}' \
    \u{2014} those participles are tagged `verb` (the auxiliary takes `verb_auxiliary`). Russian active \
    past \u{43f}\u{440}\u{43e}\u{447}\u{438}\u{442}\u{430}\u{432}\u{448}\u{438}\u{439} / passive past \
    \u{43f}\u{440}\u{43e}\u{447}\u{438}\u{442}\u{430}\u{43d}\u{43d}\u{44b}\u{439} used adjectivally; \
    Turkish -m\u{131}\u{15f}/-dik; Georgian -\u{10e3}\u{10da}-\u{10d8}; Spanish participio cantado; \
    deverbal adjectives once lexicalized\n            - gerund: verb form used as a NOUN: English -ing \
    as nominal subject/object (Swimming is fun; I enjoy reading); Russian verbal nouns and \u{434}\u{435}\u{435}\u{43f}\u{440}\u{438}\u{447}\u{430}\u{441}\u{442}\u{438}\u{44f} \
    when nominal; Spanish gerundio when nominal; Turkish -mek/-me nominals; Georgian masdar -\u{10d8}; \
    converbs when functioning adverbial-nominal. NEVER for the -ing inside 'is running' \u{2014} that's \
    `verb`. For an English -ing word: noun-position \u{2192} gerund, modifier-position \u{2192} participle_present, \
    predicate-of-be-construction \u{2192} verb\n            - adjective: attributive and predicative \
    adjectives, Japanese i-adj / na-adj (record the type in grammar.other), Russian short/long forms \
    (form in grammar.other)\n            - adverb: adverbs (modify verbs, adjectives, or other adverbs)\n            - \
    determiner_article: articles: a, an, the; el/la; der/die/das\n            - determiner_demonstrative: \
    demonstrative determiners: this/that BEFORE a noun (this car); \u{44d}\u{442}\u{43e}\u{442}/\u{44d}\u{442}\u{430} \
    before a noun; este libro; bu kitap; \u{10d4}\u{10e1} \u{10ec}\u{10d8}\u{10d2}\u{10dc}\u{10d8}; \
    \u{8fd9}\u{672c}\u{4e66}\n            - determiner_possessive: possessive determiners: my/your BEFORE \
    a noun (my book); \u{43c}\u{43e}\u{439} before a noun; mi libro\n            - determiner_quantifier: \
    quantifier determiners (some, many, several, few, all; \u{43d}\u{435}\u{441}\u{43a}\u{43e}\u{43b}\u{44c}\u{43a}\u{43e}, \
    mucho, \u{e7}ok, \u{10d1}\u{10d4}\u{10d5}\u{10e0}\u{10d8}, \u{5f88}\u{591a}, \u{4e00}\u{4e9b})\n            - \
    preposition: prepositions: relational markers placed BEFORE their complement (in, on, of, against; \
    \u{43f}\u{43e}\u{434}, \u{434}\u{43b}\u{44f}, \u{438}\u{437}; en, de)\n            - postposition: \
    postpositions: relational markers placed AFTER their complement. Turkish ile/i\u{e7}in/gibi; Georgian \
    -\u{10e8}\u{10d8}/-\u{10d6}\u{10d4}/-\u{10d7}\u{10d5}\u{10d8}\u{10e1}; Japanese case-marking particles \
    \u{306b}/\u{3067}/\u{3078} when functioning as postpositions\n            - conjunction_coordinating: \
    coordinating conjunctions (and, but, or; \u{438}, \u{430}, \u{43d}\u{43e}; y, o, pero; ve, ama, \
    veya; \u{10d3}\u{10d0}, \u{10db}\u{10d0}\u{10d2}\u{10e0}\u{10d0}\u{10db}; \u{548c}, \u{4f46}\u{662f}, \
    \u{6216}\u{8005})\n            - conjunction_subordinating: subordinating conjunctions (because, \
    although, when; \u{435}\u{441}\u{43b}\u{438}, \u{447}\u{442}\u{43e} as conj., \u{43f}\u{43e}\u{442}\u{43e}\u{43c}\u{443} \
    \u{447}\u{442}\u{43e}; porque, aunque, cuando; \u{e7}\u{fc}nk\u{fc}, e\u{11f}er; \u{10e0}\u{10dd}\u{10db}, \
    \u{10d7}\u{10e3}; \u{56e0}\u{4e3a}, \u{867d}\u{7136}, \u{5982}\u{679c})\n            - particle: \
    particle: broad function-word bucket. Infinitive marker English to; phrasal-verb particle up/down/out; \
    negation \u{43d}\u{435}/\u{43d}\u{438}, not, de\u{11f}il, \u{10d0}\u{10e0}, \u{4e0d}/\u{6ca1}; Japanese \
    binding/topic/case particles \u{306f}/\u{304c}/\u{3092} when not used as postpositions; question \
    markers Turkish mi/m\u{131}, Japanese \u{304b}, Chinese \u{5417}; aspect markers Chinese \u{4e86}/\u{7740}/\u{8fc7}, \
    Japanese \u{305f}/\u{3066}; sentence-final particles Chinese \u{5427}/\u{5462}, Japanese \u{3088}/\u{306d}. \
    Use this when a function word is neither preposition nor postposition nor conjunction\n            - \
    classifier: classifier / measure word: Chinese \u{4e2a}, \u{53ea}, \u{672c}, \u{5f20}; Japanese \
    counters \u{500b}, \u{672c}, \u{679a}, \u{5339}; Korean numerative\n            - interjection: \
    interjection or onomatopoeia (oh, wow, \u{43e}\u{439}, \u{430}\u{445}, ay; boom, \u{43c}\u{44f}\u{443}, \
    \u{308f}\u{3093}\u{308f}\u{3093}, \u{55b5})\n            - numeral_cardinal: cardinal numerals (one, \
    two; \u{43e}\u{434}\u{438}\u{43d}, \u{434}\u{432}\u{430}; uno, dos; bir, iki; \u{10d4}\u{10e0}\u{10d7}\u{10d8}, \
    \u{10dd}\u{10e0}\u{10d8}; \u{4e00}, \u{4e8c})\n            - numeral_ordinal: ordinal numerals (first, \
    second; \u{43f}\u{435}\u{440}\u{432}\u{44b}\u{439}, \u{432}\u{442}\u{43e}\u{440}\u{43e}\u{439}; \
    primero, segundo; birinci, ikinci; \u{10de}\u{10d8}\u{10e0}\u{10d5}\u{10d4}\u{10da}\u{10d8}, \u{10db}\u{10d4}\u{10dd}\u{10e0}\u{10d4}; \
    \u{7b2c}\u{4e00}, \u{7b2c}\u{4e8c})\n            - affix: bound morphemes the LLM occasionally returns \
    as separate words (-ed, -ing, English 's; Russian -\u{441}\u{44c}/-\u{441}\u{44f}; Turkish suffix \
    chains when split; Georgian preverb \u{10db}\u{10d8}-/\u{10db}\u{10dd}-)\n            - other: last-resort \
    escape ONLY for the rare case nothing else fits (acronyms used as words, untranslatable transliterations, \
    gibberish in the source). Do not default to this\n\n        Maintain consistency:\n            - \
    Use the same terminology throughout the translation\n            - If a word appears multiple times, \
    analyze it consistently\n            - Ensure word count matches: every word in original must have \
    a corresponding entry\n        Special cases:\n            - Idioms: provide literal translation \
    in note field, idiomatic translation in contextualTranslations\n            - Honorifics: mark as \
    such and explain their usage level in the note field\n        Quality checks before submitting:\n            1. \
    Count: Does the number of word entries match the number of words in the original?\n            2. \
    Punctuation: Is all punctuation preserved and correctly marked?\n            3. Grammar: Did you \
    avoid using TARGET language grammar concepts for SOURCE language analysis?\n            4. Completeness: \
    Does every word have all required fields filled?\n            5. Consistency: Are repeated words \
    analyzed the same way?\n            6. partOfSpeech: Is every word's partOfSpeech one of the canonical \
    English tags listed above?";

/// The paragraph-translation system prompt for a learner who speaks `to`
/// reading a text in `from`: the fixed instructions with the two language
/// names filled in, and the part-of-speech vocabulary with each tag's scope.
pub open spec fn paragraph_prompt_spec(from: Seq<char>, to: Seq<char>) -> Seq<char> {
    PARAGRAPH_PROMPT_0@
        + to + PARAGRAPH_PROMPT_1@
        + from + PARAGRAPH_PROMPT_2@
        + to + PARAGRAPH_PROMPT_3@
        + from + PARAGRAPH_PROMPT_4@
        + to + PARAGRAPH_PROMPT_5@
        + to + PARAGRAPH_PROMPT_6@
        + from + PARAGRAPH_PROMPT_7@
        + to + PARAGRAPH_PROMPT_8@
        + to + PARAGRAPH_PROMPT_9@
        + from + PARAGRAPH_PROMPT_10@
        + to + PARAGRAPH_PROMPT_11@
        + to + PARAGRAPH_PROMPT_12@
        + from + PARAGRAPH_PROMPT_13@
        + to + PARAGRAPH_PROMPT_14@
        + to + PARAGRAPH_PROMPT_15@
}

/// The paragraph-translation system prompt for a text written in the
/// language named `from`, read by a speaker of the language named `to`.
pub fn paragraph_prompt(from: &str, to: &str) -> (r: String)
    ensures
        r@ == paragraph_prompt_spec(from@, to@),
{
    let mut out = String::from_str(PARAGRAPH_PROMPT_0);
    out.append(to);
    out.append(PARAGRAPH_PROMPT_1);
    out.append(from);
    out.append(PARAGRAPH_PROMPT_2);
    out.append(to);
    out.append(PARAGRAPH_PROMPT_3);
    out.append(from);
    out.append(PARAGRAPH_PROMPT_4);
    out.append(to);
    out.append(PARAGRAPH_PROMPT_5);
    out.append(to);
    out.append(PARAGRAPH_PROMPT_6);
    out.append(from);
    out.append(PARAGRAPH_PROMPT_7);
    out.append(to);
    out.append(PARAGRAPH_PROMPT_8);
    out.append(to);
    out.append(PARAGRAPH_PROMPT_9);
    out.append(from);
    out.append(PARAGRAPH_PROMPT_10);
    out.append(to);
    out.append(PARAGRAPH_PROMPT_11);
    out.append(to);
    out.append(PARAGRAPH_PROMPT_12);
    out.append(from);
    out.append(PARAGRAPH_PROMPT_13);
    out.append(to);
    out.append(PARAGRAPH_PROMPT_14);
    out.append(to);
    out.append(PARAGRAPH_PROMPT_15);
    out
}

/// The part-of-speech tags a translation may use, in prompt order.
pub open spec fn part_of_speech_tag_list() -> Seq<Seq<char>> {
    seq![
        "common_noun"@,
        "proper_noun"@,
        "pronoun_personal"@,
        "pronoun_possessive"@,
        "pronoun_demonstrative"@,
        "pronoun_reflexive"@,
        "pronoun_relative"@,
        "pronoun_interrogative"@,
        "pronoun_indefinite"@,
        "pronoun_other"@,
        "verb"@,
        "verb_auxiliary"@,
        "verb_modal"@,
        "verb_copula"@,
        "predicative"@,
        "participle_present"@,
        "participle_past"@,
        "gerund"@,
        "adjective"@,
        "adverb"@,
        "determiner_article"@,
        "determiner_demonstrative"@,
        "determiner_possessive"@,
        "determiner_quantifier"@,
        "preposition"@,
        "postposition"@,
        "conjunction_coordinating"@,
        "conjunction_subordinating"@,
        "particle"@,
        "classifier"@,
        "interjection"@,
        "numeral_cardinal"@,
        "numeral_ordinal"@,
        "affix"@,
        "other"@
    ]
}

/// The part-of-speech tags a translation may use, in prompt order.
pub fn part_of_speech_tags() -> (r: Vec<&'static str>)
    ensures
        r@.map_values(|s: &'static str| s@) == part_of_speech_tag_list(),
{
    let r = vec![
        "common_noun",
        "proper_noun",
        "pronoun_personal",
        "pronoun_possessive",
        "pronoun_demonstrative",
        "pronoun_reflexive",
        "pronoun_relative",
        "pronoun_interrogative",
        "pronoun_indefinite",
        "pronoun_other",
        "verb",
        "verb_auxiliary",
        "verb_modal",
        "verb_copula",
        "predicative",
        "participle_present",
        "participle_past",
        "gerund",
        "adjective",
        "adverb",
        "determiner_article",
        "determiner_demonstrative",
        "determiner_possessive",
        "determiner_quantifier",
        "preposition",
        "postposition",
        "conjunction_coordinating",
        "conjunction_subordinating",
        "particle",
        "classifier",
        "interjection",
        "numeral_cardinal",
        "numeral_ordinal",
        "affix",
        "other"
    ];
    assert(r@.map_values(|s: &'static str| s@) =~= part_of_speech_tag_list());
    r
}

} // verus!
