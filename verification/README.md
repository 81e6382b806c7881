# Polyhedron

Polyhedron is a voice chat service for multilingual training: a trainer's
speech is transcribed once, translated once per listener language and
synthesized once per voice, and the results are shared by every listener.

- `src/` is the verified library (Verus): audio frame encoding, the
  streaming recognizer's buffering and line logic, grouping of sample chunks,
  transcript event mapping, the registries that share pipelines, speech mark
  line splitting, lesson creation and listing, and base64 payloads. Each
  public function carries a contract, and the laws of the library (round
  trips, conservation of samples and items, read-after-write of registries)
  are proof functions or postconditions.
- `app/` is the server around it: configuration, the AWS clients, the
  database, the HTTP handlers, the Whisper model and the asynchronous loops.
- `tests/` exercises the library on concrete values.
