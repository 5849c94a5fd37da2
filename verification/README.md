# flype-word

Builds user dictionaries for the Xiaohe double pinyin input method: a text is segmented into words,
the words are revised by hand, and each gets its code.

`src/` is the library, verified with Verus.

| module | what it holds |
| --- | --- |
| `text`, `order` | trimming, splitting, numbers, order of texts |
| `foreign` | what is taken from std and other crates, and what is relied on there |
| `syllable`, `encode` | the keys of syllables, the codes of words, the dictionary |
| `frequency` | the words of a text and how often they occur |
| `word_list` | reading word lists |
| `conflict` | words that share a code |
| `editable`, `rows`, `editor` | revising a word list: rows, the table, the editor's state |
| `decode`, `preview` | bytes of text files, the beginning of a long text |
| `cli` | the command line |
| `round_trip`, `spelling`, `soundness` | laws: what is written is read back; spellings that do not matter; what holds of the editor |

`app/` is the program around it: files, standard streams, and the editor's window, which opens when
the program is called `flype-word-gui`. The window takes its Chinese font from `font/sfss.ttf`.
