# chordclaw

A chord engine for six-, seven- and eight-string guitar and four-string
ukulele, written in Verus. It names chords from fingerings and generates
voicings from interval arithmetic, with no table of chord shapes.

## Layout

- `src/` is the verified library.
  - `text.rs`: character and decimal helpers, trimming, case folding.
  - `bits.rs`: bit-set helpers.
  - `notes.rs`: note names, pitch classes and pitch-class sets,
    instruments, tunings and their parsers, fingerings and their parsers.
  - `parse.rs`, `symbol.rs`: the chord-symbol grammar and chord specs.
  - `formula.rs`: chord formulas (tones, intervals, spellings).
  - `identify.rs`: readings of a fingering, ranked, with aliases.
  - `voicing.rs`: the voicing search and its options.
  - `scoring.rs`: voicing scores, finger estimates, ranking.
  - `request.rs`: reading command options into library values.
- `app/` is the command-line program: argument handling, text and JSON
  output.
- `tests/` exercises the library.

## What is proved

Among others: parsers agree with specifications of the fingering, tuning,
note and instrument texts they accept; every generated voicing stays in the
fret window and span, sounds only chord tones, leaves out only tones that
may be omitted, and puts a slash bass lowest; voicing lists come best score
first, and the exhaustive ranking is a permutation of its input; the
identification keeps one reading per printed symbol, the better one, and
finds a reading whenever a candidate chord matches the played pitch classes
exactly; each voicing's score is the total of its term-by-term breakdown and
its texts and omissions follow from its frets; the curated ranking takes
each candidate at most once; note and compact fingering texts read back as
what they print. The exhaustive voicing list holds every fretting of the
chord in the fret window and span, each once: in that mode the search cuts
a branch only where a check shows no completion can sound the chord (span,
a required bass, wanted pitches outside the formula). Each reading's printed
symbol and score are given by specifications of its parts.

There is a single engine: frets run over the standard range 0..=30, and
no chord is looked up in a table of shapes.
